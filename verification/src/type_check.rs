//! A coarser set of type rules: compatibility that takes list and function types
//! as wholes, and the result types of operators on numbers, strings and booleans.
use crate::ast::{Expression, Op, Operator};
use crate::types::{lemma_view_type_variant, same_type, SType, Type};
use vstd::prelude::*;

verus! {

/// When a value of type `rhs` may stand where `lhs` is expected: ints and floats
/// mix, `null` fits any slot, `any` mixes with everything, and every other pair
/// must be the same type.
pub open spec fn check_compatible(lhs: SType, rhs: SType) -> bool {
    match (lhs, rhs) {
        (SType::Int, SType::Float) => true,
        (SType::Float, SType::Int) => true,
        (SType::Null, _) => true,
        (SType::Any, _) => true,
        (_, SType::Any) => true,
        (l, r) => l == r,
    }
}

pub fn type_compatible(lhs: &Type, rhs: &Type) -> (b: bool)
    ensures
        b == check_compatible(lhs@, rhs@),
{
    proof {
        lemma_view_type_variant(*lhs);
        lemma_view_type_variant(*rhs);
    }
    match (lhs, rhs) {
        (Type::Int, Type::Float) => true,
        (Type::Float, Type::Int) => true,
        (Type::Null, _) => true,
        (Type::Any, _) => true,
        (_, Type::Any) => true,
        (l, r) => same_type(l, r),
    }
}

/// The numeric result of an arithmetic or comparison operator, with `any`
/// taken by either side.
pub open spec fn check_numeric(lt: SType, rt: SType) -> Option<SType> {
    match (lt, rt) {
        (SType::Int, SType::Int) => Some(SType::Int),
        (SType::Int, SType::Float) => Some(SType::Float),
        (SType::Float, SType::Int) => Some(SType::Float),
        (SType::Float, SType::Float) => Some(SType::Float),
        (SType::Any, _) => Some(SType::Any),
        (_, SType::Any) => Some(SType::Any),
        _ => None,
    }
}

/// The type of `lhs op rhs` under these rules, or `None`.
pub open spec fn check_result_ty(lt: SType, op: Op, rt: SType) -> Option<SType> {
    match op {
        Op::Add => match (lt, rt) {
            (SType::Str, SType::Str) => Some(SType::Str),
            _ => check_numeric(lt, rt),
        },
        Op::Sub | Op::Mul | Op::Div => check_numeric(lt, rt),
        Op::And | Op::Or => match (lt, rt) {
            (SType::Bool, SType::Bool) => Some(SType::Bool),
            (SType::Any, _) => Some(SType::Any),
            (_, SType::Any) => Some(SType::Any),
            _ => None,
        },
        Op::LessThan | Op::LessThanEquals | Op::GreaterThan | Op::GreaterThanEquals => {
            match check_numeric(lt, rt) {
                Some(SType::Int) => Some(SType::Bool),
                Some(SType::Float) => Some(SType::Bool),
                other => other,
            }
        },
        Op::Equals | Op::NotEquals => Some(SType::Bool),
        Op::Not => None,
    }
}

fn numeric(lt: &Type, rt: &Type) -> (r: Option<Type>)
    ensures
        match r {
            Some(t) => check_numeric(lt@, rt@) == Some(t@),
            None => check_numeric(lt@, rt@) is None,
        },
{
    proof {
        lemma_view_type_variant(*lt);
        lemma_view_type_variant(*rt);
    }
    match (lt, rt) {
        (Type::Int, Type::Int) => Some(Type::Int),
        (Type::Int, Type::Float) => Some(Type::Float),
        (Type::Float, Type::Int) => Some(Type::Float),
        (Type::Float, Type::Float) => Some(Type::Float),
        (Type::Any, _) => Some(Type::Any),
        (_, Type::Any) => Some(Type::Any),
        _ => None,
    }
}

/// The type of the binary expression `lhs op rhs` under these rules.
pub fn result_type(lhs: &Expression, op: &Operator, rhs: &Expression) -> (r: Option<Type>)
    ensures
        match r {
            Some(t) => check_result_ty(lhs@.ty, op.op, rhs@.ty) == Some(t@),
            None => check_result_ty(lhs@.ty, op.op, rhs@.ty) is None,
        },
{
    proof {
        lemma_view_type_variant(lhs.ty);
        lemma_view_type_variant(rhs.ty);
    }
    match op.op {
        Op::Add => match (&lhs.ty, &rhs.ty) {
            (Type::String, Type::String) => Some(Type::String),
            _ => numeric(&lhs.ty, &rhs.ty),
        },
        Op::Sub | Op::Mul | Op::Div => numeric(&lhs.ty, &rhs.ty),
        Op::And | Op::Or => match (&lhs.ty, &rhs.ty) {
            (Type::Bool, Type::Bool) => Some(Type::Bool),
            (Type::Any, _) => Some(Type::Any),
            (_, Type::Any) => Some(Type::Any),
            _ => None,
        },
        Op::LessThan | Op::LessThanEquals | Op::GreaterThan | Op::GreaterThanEquals => {
            match numeric(&lhs.ty, &rhs.ty) {
                Some(Type::Int) => Some(Type::Bool),
                Some(Type::Float) => Some(Type::Bool),
                other => other,
            }
        },
        Op::Equals | Op::NotEquals => Some(Type::Bool),
        Op::Not => None,
    }
}


/// Under these rules too, int with int gives int for every arithmetic operator,
/// a float on either side gives float, and comparing numbers gives a bool.
pub proof fn lemma_check_numbers(op: Op, lt: SType, rt: SType)
    requires
        lt is Int || lt is Float,
        rt is Int || rt is Float,
    ensures
        (op == Op::Add || op == Op::Sub || op == Op::Mul || op == Op::Div) ==> check_result_ty(lt, op, rt) == Some(
            if lt is Int && rt is Int {
                SType::Int
            } else {
                SType::Float
            },
        ),
        (op == Op::LessThan || op == Op::LessThanEquals || op == Op::GreaterThan || op == Op::GreaterThanEquals)
            ==> check_result_ty(lt, op, rt) == Some(SType::Bool),
        (op == Op::Equals || op == Op::NotEquals) ==> check_result_ty(lt, op, rt) == Some(SType::Bool),
        (op == Op::And || op == Op::Or || op == Op::Not) ==> check_result_ty(lt, op, rt) is None,
{
}

/// Strings add to strings, bools combine with `and` and `or`, and `any` on
/// either side of an arithmetic operator gives `any`.
pub proof fn lemma_check_other_types(op: Op, t: SType)
    ensures
        check_result_ty(SType::Str, Op::Add, SType::Str) == Some(SType::Str),
        (op == Op::And || op == Op::Or) ==> check_result_ty(SType::Bool, op, SType::Bool) == Some(SType::Bool),
        (op == Op::Add || op == Op::Sub || op == Op::Mul || op == Op::Div) ==> check_result_ty(SType::Any, op, t)
            == Some(SType::Any),
        (op == Op::Sub || op == Op::Mul || op == Op::Div) ==> check_result_ty(SType::Str, op, SType::Str) is None,
{
}

/// Every type fits itself, ints and floats fit each other, `null` fits any slot
/// and `any` mixes with everything; distinct plain types do not fit.
pub proof fn lemma_check_compatible(a: SType, b: SType)
    ensures
        check_compatible(a, a),
        check_compatible(SType::Int, SType::Float) && check_compatible(SType::Float, SType::Int),
        check_compatible(SType::Null, b),
        check_compatible(SType::Any, b) && check_compatible(b, SType::Any),
        (a is Bool || a is Str) && (b is Int || b is Float || b is Bool || b is Str) && a != b
            ==> !check_compatible(a, b),
{
}

} // verus!
