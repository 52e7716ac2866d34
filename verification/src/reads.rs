//! How far each step of the parser reads: every step that succeeds reads at
//! least one token, or (for the steps that may read nothing, such as an optional
//! `-> type` or the rest of a list) moves no further back than where it started.
//! So the checks in `grammar` that a step has read a token never decide an
//! outcome: where one of them would, the step before it has failed.
use crate::ast::{SExpression, SStatement};
use crate::grammar::{
    empty_class_acc, insert_params, level_node, level_ops, lift, p_args, p_assignment, p_at,
    p_at_set, p_binary, p_binary_rest, p_binding, p_block, p_block_items, p_bump, p_call,
    p_call_rest, p_class_body, p_class_decl, p_decl, p_enum_decl, p_enum_items, p_expect, p_expr,
    p_expr_stmt, p_finish_call, p_func_decl, p_func_tail, p_if_stmt, p_index, p_init, p_list, p_list_items,
    p_operand, p_params, p_primary, p_result_type, p_ret_annotation, p_ret_stmt, p_static_item,
    p_stmt, p_ty, p_ty_params, p_unary, p_until_stmt, p_var_decl, progress, span2,
    variable_symbol, weakly, with_scopes, ClassAcc, Ctx, Outcome, PState,
};
use crate::lexer::TokenKind;
use crate::span::Span;
use vstd::prelude::*;

verus! {

broadcast use crate::source::lemma_skip_trivia_bounds;

/// Where `o` succeeds, it has read at least one token from `st` on.
pub open spec fn reads<T>(ctx: Ctx, st: PState, o: Outcome<T>) -> bool {
    o matches Outcome::Done(_, s) ==> progress(ctx, st, s)
}

/// Where `o` succeeds, it ends at or after `st` and within the tokens.
pub open spec fn keeps<T>(ctx: Ctx, st: PState, o: Outcome<T>) -> bool {
    o matches Outcome::Done(_, s) ==> weakly(ctx, st, s)
}

pub open spec fn within(ctx: Ctx, st: PState) -> bool {
    0 <= st.cursor <= ctx.toks.len()
}

// ---------------------------------------------------------------------------
// Expressions
/// An expression that parses has read at least one token.
pub proof fn lemma_expr_reads(ctx: Ctx, st: PState)
    requires
        within(ctx, st),
    ensures
        reads(ctx, st, p_expr(ctx, st)),
    decreases ctx.toks.len() - st.cursor, 70int,
{
    lemma_assignment_reads(ctx, st);
}

pub proof fn lemma_assignment_reads(ctx: Ctx, st: PState)
    requires
        within(ctx, st),
    ensures
        reads(ctx, st, p_assignment(ctx, st)),
    decreases ctx.toks.len() - st.cursor, 69int,
{
    lemma_binary_reads(ctx, st, 0);
    if let Outcome::Done(expr, s1) = p_binary(ctx, st, 0) {
        let (is_eq, s2) = p_at(ctx, s1, TokenKind::Equal);
        if is_eq {
            if let Outcome::Done(eq_tok, s3) = p_bump(ctx, s2) {
                if progress(ctx, st, s3) {
                    lemma_assignment_reads(ctx, s3);
                }
            }
        }
    }
}

pub proof fn lemma_binary_reads(ctx: Ctx, st: PState, level: int)
    requires
        within(ctx, st),
    ensures
        reads(ctx, st, p_binary(ctx, st, level)),
    decreases ctx.toks.len() - st.cursor, 68 - 2 * level,
{
    if 0 <= level <= 5 {
        lemma_operand_reads(ctx, st, level);
        if let Outcome::Done(lhs, s1) = p_operand(ctx, st, level) {
            if weakly(ctx, st, s1) {
                lemma_binary_rest_keeps(ctx, s1, level, lhs);
            }
        }
    }
}

pub proof fn lemma_operand_reads(ctx: Ctx, st: PState, level: int)
    requires
        within(ctx, st),
    ensures
        reads(ctx, st, p_operand(ctx, st, level)),
    decreases ctx.toks.len() - st.cursor, 68 - 2 * level - 1,
{
    if 0 <= level <= 5 {
        if level == 5 {
            lemma_unary_reads(ctx, st);
        } else {
            lemma_binary_reads(ctx, st, level + 1);
        }
    }
}

pub proof fn lemma_binary_rest_keeps(ctx: Ctx, st: PState, level: int, lhs: SExpression)
    requires
        within(ctx, st),
    ensures
        keeps(ctx, st, p_binary_rest(ctx, st, level, lhs)),
    decreases ctx.toks.len() - st.cursor, 68 - 2 * level - 1,
{
    if 0 <= level <= 5 {
        let (at_op, s1) = p_at_set(ctx, st, level_ops(level));
        if at_op {
            if let Outcome::Done(op_tok, s2) = p_bump(ctx, s1) {
                if progress(ctx, st, s2) {
                    lemma_operand_reads(ctx, s2, level);
                    if let Outcome::Done(rhs, s3) = p_operand(ctx, s2, level) {
                        if progress(ctx, st, s3) && op_of_kind_some(op_tok.kind) {
                            let op = crate::ast::Operator {
                                op: crate::ast::op_of_kind(op_tok.kind)->0,
                                span: op_tok.span,
                            };
                            if let Ok(ty) = p_result_type(ctx, lhs, op, rhs) {
                                lemma_binary_rest_keeps(ctx, s3, level, level_node(level, lhs, op, rhs, ty));
                            }
                        }
                    }
                }
            }
        }
    }
}

spec fn op_of_kind_some(k: TokenKind) -> bool {
    crate::ast::op_of_kind(k) is Some
}

pub proof fn lemma_unary_reads(ctx: Ctx, st: PState)
    requires
        within(ctx, st),
    ensures
        reads(ctx, st, p_unary(ctx, st)),
    decreases ctx.toks.len() - st.cursor, 50int,
{
    let (at_op, s1) = p_at_set(ctx, st, seq![TokenKind::Bang, TokenKind::Minus]);
    if !at_op {
        if weakly(ctx, st, s1) {
            lemma_index_reads(ctx, s1);
        }
    } else {
        if let Outcome::Done(op_tok, s2) = p_bump(ctx, s1) {
            if progress(ctx, st, s2) {
                lemma_unary_reads(ctx, s2);
            }
        }
    }
}

pub proof fn lemma_index_reads(ctx: Ctx, st: PState)
    requires
        within(ctx, st),
    ensures
        reads(ctx, st, p_index(ctx, st)),
    decreases ctx.toks.len() - st.cursor, 49int,
{
    lemma_call_reads(ctx, st);
    if let Outcome::Done(expr, s1) = p_call(ctx, st) {
        let (at_br, s2) = p_at(ctx, s1, TokenKind::LeftBracket);
        if at_br {
            if let Outcome::Done(_, s3) = p_bump(ctx, s2) {
                if progress(ctx, st, s3) {
                    lemma_expr_reads(ctx, s3);
                }
            }
        }
    }
}

pub proof fn lemma_call_reads(ctx: Ctx, st: PState)
    requires
        within(ctx, st),
    ensures
        reads(ctx, st, p_call(ctx, st)),
    decreases ctx.toks.len() - st.cursor, 48int,
{
    lemma_primary_reads(ctx, st);
    if let Outcome::Done(expr, s1) = p_primary(ctx, st) {
        if progress(ctx, st, s1) {
            lemma_call_rest_keeps(ctx, s1, expr);
        }
    }
}

pub proof fn lemma_call_rest_keeps(ctx: Ctx, st: PState, expr: SExpression)
    requires
        within(ctx, st),
    ensures
        keeps(ctx, st, p_call_rest(ctx, st, expr)),
    decreases ctx.toks.len() - st.cursor, 47int,
{
    let (at_paren, s1) = p_at(ctx, st, TokenKind::RightParen);
    if at_paren {
        if let Outcome::Done(_, s2) = p_bump(ctx, s1) {
            if progress(ctx, st, s2) {
                lemma_finish_call_reads(ctx, s2, expr);
                if let Outcome::Done(e2, s3) = p_finish_call(ctx, s2, expr) {
                    if progress(ctx, st, s3) {
                        lemma_call_rest_keeps(ctx, s3, e2);
                    }
                }
            }
        }
    } else {
        let (at_dot, s2) = p_at(ctx, s1, TokenKind::Dot);
        if at_dot {
            if let Outcome::Done(_, s3) = p_bump(ctx, s2) {
                if let Outcome::Done(name_tok, s4) = p_expect(ctx, s3, TokenKind::Ident) {
                    if progress(ctx, st, s4) {
                        lemma_call_rest_keeps(
                            ctx,
                            s4,
                            SExpression {
                                span: span2(expr.span, name_tok.span),
                                ty: crate::types::SType::Any,
                                expr: crate::ast::SExpr::Get {
                                    name: crate::span::Spanned { item: name_tok.text, span: name_tok.span },
                                    object: Box::new(expr),
                                },
                            },
                        );
                    }
                }
            }
        }
    }
}

pub proof fn lemma_finish_call_reads(ctx: Ctx, st: PState, callee: SExpression)
    requires
        within(ctx, st),
    ensures
        reads(ctx, st, p_finish_call(ctx, st, callee)),
    decreases ctx.toks.len() - st.cursor, 73int,
{
    let (at_close, s1) = p_at(ctx, st, TokenKind::LeftParen);
    if !at_close && weakly(ctx, st, s1) {
        lemma_args_reads(ctx, s1);
    }
}

pub proof fn lemma_args_reads(ctx: Ctx, st: PState)
    requires
        within(ctx, st),
    ensures
        reads(ctx, st, p_args(ctx, st)),
    decreases ctx.toks.len() - st.cursor, 72int,
{
    lemma_expr_reads(ctx, st);
    if let Outcome::Done(e, s1) = p_expr(ctx, st) {
        let (at_comma, s2) = p_at(ctx, s1, TokenKind::Comma);
        if at_comma {
            if let Outcome::Done(_, s3) = p_bump(ctx, s2) {
                if progress(ctx, st, s3) {
                    lemma_args_reads(ctx, s3);
                }
            }
        }
    }
}

pub proof fn lemma_primary_reads(ctx: Ctx, st: PState)
    requires
        within(ctx, st),
    ensures
        reads(ctx, st, p_primary(ctx, st)),
    decreases ctx.toks.len() - st.cursor, 40int,
{
    if let Outcome::Done(tok, s1) = p_bump(ctx, st) {
        if progress(ctx, st, s1) {
            if tok.kind == TokenKind::RightParen {
                lemma_expr_reads(ctx, s1);
            } else if tok.kind == TokenKind::LeftBracket {
                lemma_list_reads(ctx, s1, tok.span);
            }
        }
    }
}

pub proof fn lemma_list_reads(ctx: Ctx, st: PState, start: Span)
    requires
        within(ctx, st),
    ensures
        reads(ctx, st, p_list(ctx, st, start)),
    decreases ctx.toks.len() - st.cursor, 75int,
{
    let (at_close, s1) = p_at(ctx, st, TokenKind::RightBracket);
    if !at_close && weakly(ctx, st, s1) {
        lemma_list_items_reads(ctx, s1, start);
    }
}

pub proof fn lemma_list_items_reads(ctx: Ctx, st: PState, start: Span)
    requires
        within(ctx, st),
    ensures
        reads(ctx, st, p_list_items(ctx, st, start)),
    decreases ctx.toks.len() - st.cursor, 74int,
{
    lemma_expr_reads(ctx, st);
    if let Outcome::Done(e, s1) = p_expr(ctx, st) {
        let (at_semi, s2) = p_at(ctx, s1, TokenKind::Semicolon);
        if at_semi {
            if let Outcome::Done(_, s3) = p_bump(ctx, s2) {
                lemma_expr_reads(ctx, s3);
            }
        } else {
            let (at_comma, s3) = p_at(ctx, s2, TokenKind::Comma);
            if at_comma {
                if let Outcome::Done(_, s4) = p_bump(ctx, s3) {
                    if progress(ctx, st, s4) {
                        lemma_list_items_reads(ctx, s4, start);
                    }
                }
            }
        }
    }
}

// ---------------------------------------------------------------------------
// Types and bindings
pub proof fn lemma_ty_reads(ctx: Ctx, st: PState)
    requires
        within(ctx, st),
    ensures
        reads(ctx, st, p_ty(ctx, st)),
    decreases ctx.toks.len() - st.cursor, 50int,
{
    if let Outcome::Done(tok, s1) = p_bump(ctx, st) {
        if progress(ctx, st, s1) {
            if tok.kind == TokenKind::LeftBracket {
                lemma_ty_reads(ctx, s1);
            } else if tok.kind == TokenKind::RightParen {
                let (at_close, s2) = p_at(ctx, s1, TokenKind::LeftParen);
                if !at_close && progress(ctx, st, s2) {
                    lemma_ty_params_reads(ctx, s2);
                }
                let params_o: Outcome<Seq<crate::types::STypeExpr>> = if at_close {
                    Outcome::Done(seq![], s2)
                } else if !progress(ctx, st, s2) {
                    Outcome::Halt
                } else {
                    p_ty_params(ctx, s2)
                };
                if let Outcome::Done(params, s3) = params_o {
                    if let Outcome::Done(_, s4) = p_expect(ctx, s3, TokenKind::LeftParen) {
                        if let Outcome::Done(_, s5) = p_expect(ctx, s4, TokenKind::Arrow) {
                            if progress(ctx, st, s5) {
                                lemma_ty_reads(ctx, s5);
                            }
                        }
                    }
                }
            }
        }
    }
}

pub proof fn lemma_ty_params_reads(ctx: Ctx, st: PState)
    requires
        within(ctx, st),
    ensures
        reads(ctx, st, p_ty_params(ctx, st)),
    decreases ctx.toks.len() - st.cursor, 51int,
{
    lemma_ty_reads(ctx, st);
    if let Outcome::Done(t, s1) = p_ty(ctx, st) {
        let (at_comma, s2) = p_at(ctx, s1, TokenKind::Comma);
        if at_comma {
            if let Outcome::Done(_, s3) = p_bump(ctx, s2) {
                if progress(ctx, st, s3) {
                    lemma_ty_params_reads(ctx, s3);
                }
            }
        }
    }
}

pub proof fn lemma_binding_reads(ctx: Ctx, st: PState)
    requires
        within(ctx, st),
    ensures
        reads(ctx, st, p_binding(ctx, st)),
{
    if let Outcome::Done(ident, s1) = p_expect(ctx, st, TokenKind::Ident) {
        let (at_colon, s2) = p_at(ctx, s1, TokenKind::Colon);
        if at_colon {
            if let Outcome::Done(_, s3) = p_bump(ctx, s2) {
                lemma_ty_reads(ctx, s3);
            }
        }
    }
}

pub proof fn lemma_params_reads(ctx: Ctx, st: PState)
    requires
        within(ctx, st),
    ensures
        reads(ctx, st, p_params(ctx, st)),
    decreases ctx.toks.len() - st.cursor,
{
    lemma_binding_reads(ctx, st);
    if let Outcome::Done(b, s1) = p_binding(ctx, st) {
        let (at_comma, s2) = p_at(ctx, s1, TokenKind::Comma);
        if at_comma {
            if let Outcome::Done(_, s3) = p_bump(ctx, s2) {
                if progress(ctx, st, s3) {
                    lemma_params_reads(ctx, s3);
                }
            }
        }
    }
}

pub proof fn lemma_init_keeps(ctx: Ctx, st: PState, b: crate::ast::SBinding)
    requires
        within(ctx, st),
    ensures
        keeps(ctx, st, p_init(ctx, st, b)),
{
    let (at_eq, s1) = p_at(ctx, st, TokenKind::Equal);
    if at_eq {
        if let Outcome::Done(_, s2) = p_bump(ctx, s1) {
            lemma_expr_reads(ctx, s2);
        }
    }
}

// ---------------------------------------------------------------------------
// Declarations and statements
pub proof fn lemma_var_decl_reads(ctx: Ctx, st: PState)
    requires
        within(ctx, st),
    ensures
        reads(ctx, st, p_var_decl(ctx, st)),
{
    if let Outcome::Done(let_tok, s1) = p_bump(ctx, st) {
        lemma_binding_reads(ctx, s1);
        if let Outcome::Done(b, s2) = p_binding(ctx, s1) {
            lemma_init_keeps(ctx, s2, b);
        }
    }
}

pub proof fn lemma_enum_items_reads(
    ctx: Ctx,
    st: PState,
    statics: Seq<SStatement>,
    syms: Map<Seq<char>, crate::symtab::SSymbol>,
)
    requires
        within(ctx, st),
    ensures
        reads(ctx, st, p_enum_items(ctx, st, statics, syms)),
    decreases ctx.toks.len() - st.cursor,
{
    if let Outcome::Done(k, s1) = p_expect(ctx, st, TokenKind::Ident) {
        let name = crate::span::Spanned { item: k.text, span: k.span };
        let stmt = SStatement {
            stmt: crate::ast::SStmt::Variable {
                name: crate::ast::SBinding { name, ty: crate::types::SType::Int },
                expr: Some(
                    SExpression {
                        expr: crate::ast::SExpr::Int(statics.len() as i64),
                        span: crate::span::garbage_span(),
                        ty: crate::types::SType::Int,
                    },
                ),
            },
            span: k.span,
        };
        let syms2 = syms.insert(k.text, variable_symbol(name, crate::types::SType::Int));
        let statics2 = statics.push(stmt);
        let (at_comma, s2) = p_at(ctx, s1, TokenKind::Comma);
        if at_comma {
            if let Outcome::Done(_, s3) = p_bump(ctx, s2) {
                if progress(ctx, st, s3) {
                    lemma_enum_items_reads(ctx, s3, statics2, syms2);
                }
            }
        }
    }
}

pub proof fn lemma_enum_decl_reads(ctx: Ctx, st: PState)
    requires
        within(ctx, st),
    ensures
        reads(ctx, st, p_enum_decl(ctx, st)),
{
    if let Outcome::Done(_, s1) = p_expect(ctx, st, TokenKind::Enum) {
        if let Outcome::Done(_, s2) = p_expect(ctx, s1, TokenKind::Ident) {
            if let Outcome::Done(_, s3) = p_expect(ctx, s2, TokenKind::RightBrace) {
                let (at_close, s4) = p_at(ctx, s3, TokenKind::LeftBrace);
                if !at_close {
                    lemma_enum_items_reads(ctx, s4, seq![], Map::empty());
                }
            }
        }
    }
}

pub proof fn lemma_static_item_reads(ctx: Ctx, st: PState, acc: ClassAcc)
    requires
        within(ctx, st),
    ensures
        reads(ctx, st, p_static_item(ctx, st, acc)),
{
    if let Outcome::Done(_, s1) = p_bump(ctx, st) {
        lemma_binding_reads(ctx, s1);
        if let Outcome::Done(b, s2) = p_binding(ctx, s1) {
            lemma_init_keeps(ctx, s2, b);
        }
    }
}

pub proof fn lemma_ret_annotation_keeps(ctx: Ctx, st: PState)
    requires
        within(ctx, st),
    ensures
        keeps(ctx, st, p_ret_annotation(ctx, st)),
{
    let (at_arrow, s1) = p_at(ctx, st, TokenKind::Arrow);
    if at_arrow {
        if let Outcome::Done(_, s2) = p_bump(ctx, s1) {
            lemma_ty_reads(ctx, s2);
        }
    }
}

/// A function declaration that parses has read at least one token.
pub proof fn lemma_func_decl_reads(ctx: Ctx, st: PState, from_class: bool)
    requires
        within(ctx, st),
    ensures
        reads(ctx, st, p_func_decl(ctx, st, from_class)),
    decreases ctx.toks.len() - st.cursor, 85int,
{
    let head_o: Outcome<Span> = if from_class {
        Outcome::Done(crate::span::garbage_span(), st)
    } else {
        match p_expect(ctx, st, TokenKind::Func) {
            Outcome::Done(t, s) => Outcome::Done(t.span, s),
            o => lift(o),
        }
    };
    if let Outcome::Done(start0, s1) = head_o {
        if let Outcome::Done(name_tok, s2) = p_expect(ctx, s1, TokenKind::Ident) {
            if let Outcome::Done(_, s3) = p_expect(ctx, s2, TokenKind::RightParen) {
                let (at_close, s4) = p_at(ctx, s3, TokenKind::LeftParen);
                if !at_close {
                    lemma_params_reads(ctx, s4);
                }
                let params_o = if at_close {
                    Outcome::Done(Seq::<crate::ast::SBinding>::empty(), s4)
                } else {
                    p_params(ctx, s4)
                };
                if let Outcome::Done(params, s5) = params_o {
                    if let Outcome::Done(rp, s6) = p_expect(ctx, s5, TokenKind::LeftParen) {
                        lemma_ret_annotation_keeps(ctx, s6);
                        if let Outcome::Done(return_ty, s7) = p_ret_annotation(ctx, s6) {
                            let start = if from_class {
                                name_tok.span
                            } else {
                                start0
                            };
                            lemma_func_tail_reads(
                                ctx,
                                st,
                                s7,
                                from_class,
                                crate::span::Spanned { item: name_tok.text, span: name_tok.span },
                                params,
                                return_ty,
                                span2(start, rp.span),
                            );
                        }
                    }
                }
            }
        }
    }
}

/// The rest of a function declaration reads the body, which reads tokens.
pub proof fn lemma_func_tail_reads(
    ctx: Ctx,
    st: PState,
    s7: PState,
    from_class: bool,
    name: crate::span::Spanned<Seq<char>>,
    params: Seq<crate::ast::SBinding>,
    return_ty: crate::types::STypeExpr,
    span: Span,
)
    requires
        within(ctx, st),
    ensures
        reads(ctx, st, p_func_tail(ctx, st, s7, from_class, name, params, return_ty, span)),
    decreases ctx.toks.len() - st.cursor, 84int,
{
    let func_type = crate::types::SType::Function {
        params: params.map_values(|b: crate::ast::SBinding| crate::ast::binding_type_expr(b)),
        ret_ty: Box::new(return_ty),
    };
    let scopes1 = if from_class {
        s7.scopes
    } else {
        crate::symtab::insert_scopes(
            s7.scopes,
            name.item,
            crate::symtab::SSymbol { name, sym: crate::symtab::SSym::Function { arity: params.len() }, ty: func_type },
        )
    };
    let s8 = with_scopes(s7, insert_params(scopes1.push(Map::empty()), params));
    if progress(ctx, st, s8) {
        lemma_block_reads(ctx, s8, true);
    }
}

pub proof fn lemma_class_body_keeps(ctx: Ctx, st: PState, acc: ClassAcc)
    requires
        within(ctx, st),
    ensures
        keeps(ctx, st, p_class_body(ctx, st, acc)),
    decreases ctx.toks.len() - st.cursor, 95int,
{
    if st.cursor < ctx.toks.len() {
        let (at_close, s1) = p_at(ctx, st, TokenKind::LeftBrace);
        if !at_close {
            let (is_static, s2) = p_at(ctx, s1, TokenKind::Static);
            if is_static {
                lemma_static_item_reads(ctx, s2, acc);
            } else if weakly(ctx, st, s2) {
                lemma_func_decl_reads(ctx, s2, true);
            }
            let item_o: Outcome<ClassAcc> = if is_static {
                p_static_item(ctx, s2, acc)
            } else if !weakly(ctx, st, s2) {
                Outcome::Halt
            } else {
                match p_func_decl(ctx, s2, true) {
                    Outcome::Done(stmt, s3) => match stmt.stmt {
                        crate::ast::SStmt::Function(f) => Outcome::Done(
                            ClassAcc {
                                methods: acc.methods.push(stmt),
                                msyms: acc.msyms.insert(
                                    f.name.item,
                                    crate::symtab::SSymbol {
                                        name: f.name,
                                        sym: crate::symtab::SSym::Function { arity: f.params.len() },
                                        ty: f.ty.ty,
                                    },
                                ),
                                ..acc
                            },
                            s3,
                        ),
                        _ => Outcome::Halt,
                    },
                    o => lift(o),
                }
            };
            if let Outcome::Done(acc2, s4) = item_o {
                if progress(ctx, st, s4) {
                    lemma_class_body_keeps(ctx, s4, acc2);
                }
            }
        }
    }
}

/// A class declaration that parses has read at least one token.
pub proof fn lemma_class_decl_reads(ctx: Ctx, st: PState)
    requires
        within(ctx, st),
    ensures
        reads(ctx, st, p_class_decl(ctx, st)),
    decreases ctx.toks.len() - st.cursor, 89int,
{
    if let Outcome::Done(_, s1) = p_expect(ctx, st, TokenKind::Class) {
        if let Outcome::Done(_, s2) = p_expect(ctx, s1, TokenKind::Ident) {
            if let Outcome::Done(_, s3) = p_expect(ctx, s2, TokenKind::RightBrace) {
                if progress(ctx, st, s3) {
                    lemma_class_body_keeps(ctx, s3, empty_class_acc());
                }
            }
        }
    }
}

/// A declaration that parses has read at least one token.
pub proof fn lemma_decl_reads(ctx: Ctx, st: PState)
    requires
        within(ctx, st),
    ensures
        reads(ctx, st, p_decl(ctx, st)),
    decreases ctx.toks.len() - st.cursor, 90int,
{
    let (is_class, s1) = p_at(ctx, st, TokenKind::Class);
    if is_class {
        lemma_class_decl_reads(ctx, s1);
    } else {
        let (is_func, s2) = p_at(ctx, s1, TokenKind::Func);
        if is_func {
            lemma_func_decl_reads(ctx, s2, false);
        } else {
            let (is_let, s3) = p_at(ctx, s2, TokenKind::Let);
            if is_let {
                lemma_var_decl_reads(ctx, s3);
            } else {
                let (is_enum, s4) = p_at(ctx, s3, TokenKind::Enum);
                if is_enum {
                    lemma_enum_decl_reads(ctx, s4);
                } else {
                    lemma_stmt_reads(ctx, s4);
                }
            }
        }
    }
}

/// A statement that parses has read at least one token.
pub proof fn lemma_stmt_reads(ctx: Ctx, st: PState)
    requires
        within(ctx, st),
    ensures
        reads(ctx, st, p_stmt(ctx, st)),
    decreases ctx.toks.len() - st.cursor, 80int,
{
    let (is_block, s1) = p_at(ctx, st, TokenKind::RightBrace);
    if is_block {
        lemma_block_reads(ctx, s1, false);
    } else {
        let (is_if, s2) = p_at(ctx, s1, TokenKind::If);
        if is_if {
            lemma_if_stmt_reads(ctx, s2);
        } else {
            let (is_until, s3) = p_at(ctx, s2, TokenKind::Until);
            if is_until {
                lemma_until_stmt_reads(ctx, s3);
            } else {
                let (is_ret, s4) = p_at(ctx, s3, TokenKind::Ret);
                if is_ret {
                    lemma_ret_stmt_reads(ctx, s4);
                } else {
                    lemma_expr_stmt_reads(ctx, s4);
                }
            }
        }
    }
}

pub proof fn lemma_ret_stmt_reads(ctx: Ctx, st: PState)
    requires
        within(ctx, st),
    ensures
        reads(ctx, st, p_ret_stmt(ctx, st)),
{
    if let Outcome::Done(_, s1) = p_expect(ctx, st, TokenKind::Ret) {
        let (at_semi, s2) = p_at(ctx, s1, TokenKind::Semicolon);
        if !at_semi {
            lemma_expr_reads(ctx, s2);
        }
    }
}

pub proof fn lemma_until_stmt_reads(ctx: Ctx, st: PState)
    requires
        within(ctx, st),
    ensures
        reads(ctx, st, p_until_stmt(ctx, st)),
    decreases ctx.toks.len() - st.cursor, 79int,
{
    if let Outcome::Done(_, s1) = p_expect(ctx, st, TokenKind::Until) {
        lemma_expr_reads(ctx, s1);
        if let Outcome::Done(_, s2) = p_expr(ctx, s1) {
            if progress(ctx, st, s2) {
                lemma_stmt_reads(ctx, s2);
            }
        }
    }
}

pub proof fn lemma_if_stmt_reads(ctx: Ctx, st: PState)
    requires
        within(ctx, st),
    ensures
        reads(ctx, st, p_if_stmt(ctx, st)),
    decreases ctx.toks.len() - st.cursor, 79int,
{
    if let Outcome::Done(_, s1) = p_expect(ctx, st, TokenKind::If) {
        lemma_expr_reads(ctx, s1);
        if let Outcome::Done(_, s2) = p_expr(ctx, s1) {
            if progress(ctx, st, s2) {
                lemma_stmt_reads(ctx, s2);
                if let Outcome::Done(_, s3) = p_stmt(ctx, s2) {
                    let (at_else, s4) = p_at(ctx, s3, TokenKind::Else);
                    if at_else {
                        if let Outcome::Done(_, s5) = p_bump(ctx, s4) {
                            if progress(ctx, st, s5) {
                                lemma_stmt_reads(ctx, s5);
                            }
                        }
                    }
                }
            }
        }
    }
}

/// A block that parses has read at least one token.
pub proof fn lemma_block_reads(ctx: Ctx, st: PState, from_func: bool)
    requires
        within(ctx, st),
    ensures
        reads(ctx, st, p_block(ctx, st, from_func)),
    decreases ctx.toks.len() - st.cursor, 79int,
{
    if let Outcome::Done(_, s1) = p_expect(ctx, st, TokenKind::RightBrace) {
        if progress(ctx, st, s1) {
            let s2 = if from_func {
                s1
            } else {
                with_scopes(s1, s1.scopes.push(Map::empty()))
            };
            lemma_block_items_keeps(ctx, s2);
        }
    }
}

pub proof fn lemma_block_items_keeps(ctx: Ctx, st: PState)
    requires
        within(ctx, st),
    ensures
        keeps(ctx, st, p_block_items(ctx, st)),
    decreases ctx.toks.len() - st.cursor, 95int,
{
    if st.cursor < ctx.toks.len() {
        let (at_close, s1) = p_at(ctx, st, TokenKind::LeftBrace);
        if !at_close && weakly(ctx, st, s1) {
            lemma_decl_reads(ctx, s1);
            if let Outcome::Done(_, s2) = p_decl(ctx, s1) {
                if progress(ctx, st, s2) {
                    lemma_block_items_keeps(ctx, s2);
                }
            }
        }
    }
}

pub proof fn lemma_expr_stmt_reads(ctx: Ctx, st: PState)
    requires
        within(ctx, st),
    ensures
        reads(ctx, st, p_expr_stmt(ctx, st)),
{
    lemma_expr_reads(ctx, st);
}

} // verus!
