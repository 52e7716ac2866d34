//! The errors that the parser reports.
use crate::lexer::TokenKind;
use crate::span::{SourceId, Span};
use crate::types::{SType, Type};
use vstd::prelude::*;

verus! {

/// Why a text could not be parsed. Each error names the source and the places
/// that a report should point at.
#[derive(Debug, PartialEq)]
pub enum ParseError {
    /// Expected an expression.
    ExpectedExpression(SourceId, Span),
    /// Expected a token of the given kind, but found the given text.
    ExpectedToken(SourceId, String, TokenKind, Span),
    /// The text ended where more tokens were expected.
    UnexpectedEof(SourceId, Span),
    /// Only variables, properties and list elements can be assigned to.
    InvalidAssignmentTarget(SourceId, Span),
    /// A binary operator that does not apply to the types of its operands.
    UnsupportedOperation(SourceId, Span, Span, Type, Span, Type),
    /// A unary operator that does not apply to the type of its operand.
    UnsupportedUnaryOperation(SourceId, Span, Span, Type),
    /// A name that is not declared.
    UndeclaredVariable(SourceId, Span, String),
    /// A value whose type does not fit the type expected.
    IncompatibleTypes(SourceId, Span, Type, Span, Type),
    /// A type annotation that names no type.
    UnknownType(SourceId, Span),
    /// Only classes and functions can be called.
    UncallableExpression(SourceId, Span, Type),
    /// Only instances and classes have properties.
    OnlyInstancesAndClassesHaveProperties(SourceId, Span, Type),
    /// A function without a final return statement declares a return type.
    FunctionHasIncompatibleReturnType(SourceId, Span, Type, Span, Type),
    /// `ret` outside of any function.
    CantReturnFromGlobalScope(SourceId, Span),
    /// The count of a list shorthand `[value; count]` must be an int.
    ListShorthandCountMustBeInt(SourceId, Span),
    /// A name that is already declared in a visible scope, with the place of that declaration.
    CannotRedeclareSymbol(SourceId, String, Span, Span),
}

pub enum SParseError {
    ExpectedExpression(SourceId, Span),
    ExpectedToken(SourceId, Seq<char>, TokenKind, Span),
    UnexpectedEof(SourceId, Span),
    InvalidAssignmentTarget(SourceId, Span),
    UnsupportedOperation(SourceId, Span, Span, SType, Span, SType),
    UnsupportedUnaryOperation(SourceId, Span, Span, SType),
    UndeclaredVariable(SourceId, Span, Seq<char>),
    IncompatibleTypes(SourceId, Span, SType, Span, SType),
    UnknownType(SourceId, Span),
    UncallableExpression(SourceId, Span, SType),
    OnlyInstancesAndClassesHaveProperties(SourceId, Span, SType),
    FunctionHasIncompatibleReturnType(SourceId, Span, SType, Span, SType),
    CantReturnFromGlobalScope(SourceId, Span),
    ListShorthandCountMustBeInt(SourceId, Span),
    CannotRedeclareSymbol(SourceId, Seq<char>, Span, Span),
}

impl View for ParseError {
    type V = SParseError;

    open spec fn view(&self) -> SParseError {
        match self {
            ParseError::ExpectedExpression(i, s) => SParseError::ExpectedExpression(*i, *s),
            ParseError::ExpectedToken(i, t, k, s) => SParseError::ExpectedToken(*i, t@, *k, *s),
            ParseError::UnexpectedEof(i, s) => SParseError::UnexpectedEof(*i, *s),
            ParseError::InvalidAssignmentTarget(i, s) => SParseError::InvalidAssignmentTarget(
                *i,
                *s,
            ),
            ParseError::UnsupportedOperation(i, a, b, t, c, u) => SParseError::UnsupportedOperation(
                *i,
                *a,
                *b,
                t@,
                *c,
                u@,
            ),
            ParseError::UnsupportedUnaryOperation(i, a, b, t) => SParseError::UnsupportedUnaryOperation(
                *i,
                *a,
                *b,
                t@,
            ),
            ParseError::UndeclaredVariable(i, s, n) => SParseError::UndeclaredVariable(*i, *s, n@),
            ParseError::IncompatibleTypes(i, a, t, b, u) => SParseError::IncompatibleTypes(
                *i,
                *a,
                t@,
                *b,
                u@,
            ),
            ParseError::UnknownType(i, s) => SParseError::UnknownType(*i, *s),
            ParseError::UncallableExpression(i, s, t) => SParseError::UncallableExpression(
                *i,
                *s,
                t@,
            ),
            ParseError::OnlyInstancesAndClassesHaveProperties(i, s, t) => {
                SParseError::OnlyInstancesAndClassesHaveProperties(*i, *s, t@)
            },
            ParseError::FunctionHasIncompatibleReturnType(i, a, t, b, u) => {
                SParseError::FunctionHasIncompatibleReturnType(*i, *a, t@, *b, u@)
            },
            ParseError::CantReturnFromGlobalScope(i, s) => SParseError::CantReturnFromGlobalScope(
                *i,
                *s,
            ),
            ParseError::ListShorthandCountMustBeInt(i, s) => SParseError::ListShorthandCountMustBeInt(
                *i,
                *s,
            ),
            ParseError::CannotRedeclareSymbol(i, n, a, b) => SParseError::CannotRedeclareSymbol(
                *i,
                n@,
                *a,
                *b,
            ),
        }
    }
}

} // verus!
