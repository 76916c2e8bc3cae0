//! The errors of parsing and evaluation, and their messages.

use crate::operator::{Infix, Prefix};
use crate::token::{token_text, Token, TokenView};
use vstd::prelude::*;

verus! {

/// An error of parsing or evaluation.
#[derive(Debug)]
pub enum MonkeyError {
    /// An error that carries its whole message.
    Custom(String),
    /// A number that is no 64-bit signed integer.
    UnsupportedNumError,
    /// The parser required the first token and found the second.
    UnexpectedToken(Token, Token),
    /// The operands of an infix operator are of different types: the type
    /// of the left one, that of the right one, and the operator.
    TypeMismatch(String, String, Infix),
    /// An infix operator that is not defined for its operands' type.
    UnknownOperator(String, String, Infix),
    /// A prefix operator that is not defined for its operand's type.
    UnknownPrefix(Prefix, String),
    /// An identifier that no enclosing scope binds.
    UncaughtRef(String),
}

/// The mathematical value of a [`MonkeyError`].
pub enum ErrorView {
    Custom(Seq<char>),
    UnsupportedNumError,
    UnexpectedToken(TokenView, TokenView),
    TypeMismatch(Seq<char>, Seq<char>, Infix),
    UnknownOperator(Seq<char>, Seq<char>, Infix),
    UnknownPrefix(Prefix, Seq<char>),
    UncaughtRef(Seq<char>),
}

impl View for MonkeyError {
    type V = ErrorView;

    open spec fn view(&self) -> ErrorView {
        match self {
            MonkeyError::Custom(msg) => ErrorView::Custom(msg@),
            MonkeyError::UnsupportedNumError => ErrorView::UnsupportedNumError,
            MonkeyError::UnexpectedToken(expected, actual) => ErrorView::UnexpectedToken(
                expected@,
                actual@,
            ),
            MonkeyError::TypeMismatch(left, right, op) => ErrorView::TypeMismatch(
                left@,
                right@,
                *op,
            ),
            MonkeyError::UnknownOperator(left, right, op) => ErrorView::UnknownOperator(
                left@,
                right@,
                *op,
            ),
            MonkeyError::UnknownPrefix(op, right) => ErrorView::UnknownPrefix(*op, right@),
            MonkeyError::UncaughtRef(ident) => ErrorView::UncaughtRef(ident@),
        }
    }
}

/// The message of an error.
pub open spec fn error_text(e: ErrorView) -> Seq<char> {
    match e {
        ErrorView::Custom(msg) => msg,
        ErrorView::UnsupportedNumError =>
            "UnsupportedNumError: Monkey only supports integer numbers"@,
        ErrorView::UnexpectedToken(expected, actual) => "expected "@ + token_text(expected)
            + ", but got "@ + token_text(actual),
        ErrorView::TypeMismatch(left, right, op) => "type mismatch: "@ + left + " "@
            + op.symbol() + " "@ + right,
        ErrorView::UnknownOperator(left, right, op) => "unknown operator: "@ + left + " "@
            + op.symbol() + " "@ + right,
        ErrorView::UnknownPrefix(op, right) => "unknown prefix: "@ + op.symbol() + right,
        ErrorView::UncaughtRef(ident) => "Uncaught ReferenceError: "@ + ident
            + " is not defined"@,
    }
}

impl MonkeyError {
    /// The message of the error.
    pub fn to_string(&self) -> (r: String)
        ensures
            r@ == error_text(self@),
    {
        match self {
            MonkeyError::Custom(msg) => msg.clone(),
            MonkeyError::UnsupportedNumError => String::from_str(
                "UnsupportedNumError: Monkey only supports integer numbers",
            ),
            MonkeyError::UnexpectedToken(expected, actual) => {
                let mut out = String::from_str("expected ");
                out.append(expected.debug_string().as_str());
                out.append(", but got ");
                out.append(actual.debug_string().as_str());
                out
            },
            MonkeyError::TypeMismatch(left, right, op) => {
                let mut out = String::from_str("type mismatch: ");
                out.append(left.as_str());
                out.append(" ");
                out.append(op.to_string().as_str());
                out.append(" ");
                out.append(right.as_str());
                out
            },
            MonkeyError::UnknownOperator(left, right, op) => {
                let mut out = String::from_str("unknown operator: ");
                out.append(left.as_str());
                out.append(" ");
                out.append(op.to_string().as_str());
                out.append(" ");
                out.append(right.as_str());
                out
            },
            MonkeyError::UnknownPrefix(op, right) => {
                let mut out = String::from_str("unknown prefix: ");
                out.append(op.to_string().as_str());
                out.append(right.as_str());
                out
            },
            MonkeyError::UncaughtRef(ident) => {
                let mut out = String::from_str("Uncaught ReferenceError: ");
                out.append(ident.as_str());
                out.append(" is not defined");
                out
            },
        }
    }
}

/// The view of a result whose error is a [`MonkeyError`].
pub open spec fn result_view<T: View>(r: Result<T, MonkeyError>) -> Result<T::V, ErrorView> {
    match r {
        Ok(v) => Ok(v@),
        Err(e) => Err(e@),
    }
}

} // verus!
