//! Errors of compiling and running, each with the token it is attributed to.
use crate::token::Token;
use crate::value::{Operator, ValueKind};
use vstd::prelude::*;

verus! {

/// What went wrong.
pub enum Error {
    ExpectedIdentifierAsVariableName,
    ExpectedIdentifierAsFunctionArgument,
    ExpectedBeInAssignment,
    ExpectedInAfterAssignment,
    ExpectedEofAfterExpression,
    ExpectedExpressionFound(Token),
    ExpectedEndAfterDoBlock,
    ExpectedDoAsFunctionBody,
    /// A name that no binder in scope has, as UTF-8 bytes.
    IdentifierIsNotDefined(Vec<u8>),
    /// A call of a value that is no function, by the value's kind.
    ValueNotCallable(ValueKind),
    ArgumentToOperatorMustBeANumber(Operator),
    ValueDependsOnItself,
    OutputNotWritable,
    /// Forcing nested deeper than the interpreter's limit.
    NestingTooDeep,
}

/// Whether an error comes from compiling or from running.
#[derive(Clone, Copy, Debug, PartialEq, Eq, Structural)]
pub enum ErrorType {
    Compile,
    Runtime,
}

/// An error and the token it is attributed to.
pub struct AnnotatedError {
    pub error: Error,
    pub token: Token,
}

pub open spec fn is_compile_error(e: Error) -> bool {
    match e {
        Error::ExpectedIdentifierAsVariableName | Error::ExpectedIdentifierAsFunctionArgument
        | Error::ExpectedBeInAssignment | Error::ExpectedInAfterAssignment
        | Error::ExpectedEofAfterExpression | Error::ExpectedExpressionFound(_)
        | Error::ExpectedEndAfterDoBlock | Error::ExpectedDoAsFunctionBody
        | Error::IdentifierIsNotDefined(_) => true,
        _ => false,
    }
}

impl AnnotatedError {
    pub fn new(error: Error, token: Token) -> (r: AnnotatedError)
        ensures
            r.error == error,
            r.token == token,
    {
        AnnotatedError { error, token }
    }
}

impl Error {
    pub open spec fn annotate_spec(self, token: Token) -> AnnotatedError {
        AnnotatedError { error: self, token }
    }

    /// This error, attributed to `token`.
    pub fn annotate(self, token: Token) -> (r: AnnotatedError)
        ensures
            r == self.annotate_spec(token),
    {
        AnnotatedError::new(self, token)
    }

    /// Whether this is an error of compiling or of running.
    pub fn error_type(&self) -> (r: ErrorType)
        ensures
            r == (if is_compile_error(*self) {
                ErrorType::Compile
            } else {
                ErrorType::Runtime
            }),
    {
        match self {
            Error::ExpectedIdentifierAsVariableName | Error::ExpectedIdentifierAsFunctionArgument
            | Error::ExpectedBeInAssignment | Error::ExpectedInAfterAssignment
            | Error::ExpectedEofAfterExpression | Error::ExpectedExpressionFound(_)
            | Error::ExpectedEndAfterDoBlock | Error::ExpectedDoAsFunctionBody
            | Error::IdentifierIsNotDefined(_) => ErrorType::Compile,
            _ => ErrorType::Runtime,
        }
    }
}

} // verus!
