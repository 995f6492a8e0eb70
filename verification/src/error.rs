//! The ways in which the front end rejects a source text.

use vstd::prelude::*;

verus! {

/// Every failure is fatal: the front end stops at the first one and hands
/// back its kind.
#[derive(Debug, PartialEq, Eq, Clone, Copy, Structural)]
pub enum CompileError {
    /// No token pattern matched at some position of the source text.
    LexError,
    /// A token that neither starts nor continues the production being parsed.
    UnexpectedToken,
    /// The right-hand side of `->` does not end in a function call.
    ArrowTargetNotCall,
    /// The parser's single push-back slot is already occupied.
    PushBufferFull,
    /// Two functions of one file share a name.
    DuplicateFunction,
    /// The file has no function named `main`.
    MissingMain,
    /// Two parameters of one function, inputs and outputs together, share a name.
    DuplicateParameter,
    /// A type name that is neither a primitive nor `stream`.
    UnknownType,
    /// A known type with the wrong number of type arguments.
    BadTypeArity,
}

/// The message that tells a user of the error.
pub open spec fn error_text(e: CompileError) -> Seq<char> {
    match e {
        CompileError::LexError => "Unknown token"@,
        CompileError::UnexpectedToken => "Unexpected token"@,
        CompileError::ArrowTargetNotCall => "Expected a function call after the arrow operator"@,
        CompileError::PushBufferFull => "Cannot push; reserve is full"@,
        CompileError::DuplicateFunction => "Redeclaration of function name"@,
        CompileError::MissingMain => "main function not found"@,
        CompileError::DuplicateParameter => "Redeclaration of parameter name"@,
        CompileError::UnknownType => "Unrecognized type"@,
        CompileError::BadTypeArity => "Wrong number of generics for type"@,
    }
}

impl CompileError {
    /// The message that tells a user of the error.
    pub fn to_string(&self) -> (r: String)
        ensures
            r@ == error_text(*self),
    {
        match self {
            CompileError::LexError => String::from_str("Unknown token"),
            CompileError::UnexpectedToken => String::from_str("Unexpected token"),
            CompileError::ArrowTargetNotCall => String::from_str(
                "Expected a function call after the arrow operator",
            ),
            CompileError::PushBufferFull => String::from_str("Cannot push; reserve is full"),
            CompileError::DuplicateFunction => String::from_str("Redeclaration of function name"),
            CompileError::MissingMain => String::from_str("main function not found"),
            CompileError::DuplicateParameter => String::from_str(
                "Redeclaration of parameter name",
            ),
            CompileError::UnknownType => String::from_str("Unrecognized type"),
            CompileError::BadTypeArity => String::from_str("Wrong number of generics for type"),
        }
    }
}

} // verus!
