//! How tightly the arithmetic operators bind: a left and a right binding power
//! for each binary operator, a right one for the prefix operator.
use crate::grammar::level_ops;
use crate::lexer::TokenKind;
use vstd::prelude::*;

verus! {

/// The binary arithmetic operators.
#[derive(Debug, Clone, Copy, PartialEq, Eq, Structural)]
pub enum BinaryOp {
    Add,
    Sub,
    Mul,
    Div,
}

/// The prefix operator.
#[derive(Debug, Clone, Copy, PartialEq, Eq, Structural)]
pub enum UnaryOp {
    Neg,
}

/// The binding powers of a binary operator: terms bind with 1 and 2, factors
/// with 3 and 4.
pub open spec fn binary_power(op: BinaryOp) -> (u8, u8) {
    match op {
        BinaryOp::Add | BinaryOp::Sub => (1, 2),
        BinaryOp::Mul | BinaryOp::Div => (3, 4),
    }
}

/// The token of a binary operator.
pub open spec fn binary_token(op: BinaryOp) -> TokenKind {
    match op {
        BinaryOp::Add => TokenKind::Plus,
        BinaryOp::Sub => TokenKind::Minus,
        BinaryOp::Mul => TokenKind::Star,
        BinaryOp::Div => TokenKind::Slash,
    }
}

impl BinaryOp {
    /// The left and the right binding power of the operator.
    pub fn binding_power(&self) -> (r: (u8, u8))
        ensures
            r == binary_power(*self),
    {
        match self {
            Self::Add | Self::Sub => (1, 2),
            Self::Mul | Self::Div => (3, 4),
        }
    }
}

impl UnaryOp {
    /// The right binding power of the operator.
    pub fn binding_power(&self) -> (r: ((), u8))
        ensures
            r.1 == 5,
    {
        match self {
            Self::Neg => ((), 5),
        }
    }
}

/// Each binary operator binds tighter on its right than on its left, so that a
/// chain of operators of one power groups to the left.
pub proof fn lemma_binary_left_associative(op: BinaryOp)
    ensures
        binary_power(op).0 < binary_power(op).1,
{
}

/// Operators of one level have the same powers; the powers of a higher level are
/// all above those of a lower one, and negation binds tighter than any of them.
pub proof fn lemma_powers_order_levels(a: BinaryOp, b: BinaryOp)
    ensures
        (binary_power(a) == binary_power(b)) == ((a is Add || a is Sub) == (b is Add || b is Sub)),
        (a is Add || a is Sub) && (b is Mul || b is Div) ==> binary_power(a).1 < binary_power(b).0,
        binary_power(a).1 < 5,
{
}

/// The powers agree with the parser's levels: the operators of terms are those
/// of level 4 and the operators of factors those of level 5.
pub proof fn lemma_powers_match_parser_levels(op: BinaryOp)
    ensures
        (op is Add || op is Sub) == level_ops(4).contains(binary_token(op)),
        (op is Mul || op is Div) == level_ops(5).contains(binary_token(op)),
{
    let t = binary_token(op);
    assert(level_ops(4) =~= seq![TokenKind::Minus, TokenKind::Plus]);
    assert(level_ops(5) =~= seq![TokenKind::Slash, TokenKind::Star]);
    if level_ops(4).contains(t) {
        let i = choose|i: int| 0 <= i < level_ops(4).len() && level_ops(4)[i] == t;
        assert(i == 0 || i == 1);
    }
    if level_ops(5).contains(t) {
        let i = choose|i: int| 0 <= i < level_ops(5).len() && level_ops(5)[i] == t;
        assert(i == 0 || i == 1);
    }
    if op is Add || op is Sub {
        assert(level_ops(4)[0] == t || level_ops(4)[1] == t);
    } else {
        assert(level_ops(5)[0] == t || level_ops(5)[1] == t);
    }
}

} // verus!
