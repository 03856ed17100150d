//! The single error type of the engine: a kind plus an optional message.

use vstd::prelude::*;

verus! {

/// The cause of a failed tokenization, conversion or evaluation.
#[derive(Clone, Copy, Debug, PartialEq, Eq, Structural)]
pub enum ErrorKind {
    /// An unrecognized lexeme, an unknown identifier at evaluation time,
    /// a misplaced comma, or a malformed function call site.
    InvalidInput,
    /// A structural failure detectable only after composition: unbalanced
    /// grouping, an empty stack on pop, residual values at the end, or a
    /// misplaced unary operator.
    InvalidExpression,
    /// A callable was invoked with the wrong number of arguments.
    InvalidArgumentCount,
    /// A numeric conversion or operation exceeded the representable range.
    Overflow,
    /// An operation has no numeric result on the given operand.
    NAN,
    /// The factorial of a negative number was requested.
    NegativeValue,
    /// A division or remainder by zero.
    DivisionByZero,
}

/// An error carrying an [`ErrorKind`] and an optional human message.
#[derive(Debug)]
pub struct Error {
    kind: ErrorKind,
    message: Option<String>,
}

impl Error {
    /// The kind, for use in specifications.
    pub closed spec fn spec_kind(self) -> ErrorKind {
        self.kind
    }

    /// Creates an error of the given kind with a message.
    pub fn new(kind: ErrorKind, message: &str) -> (r: Error)
        ensures
            r.spec_kind() == kind,
    {
        Error { kind, message: Some(message.to_owned()) }
    }

    /// Creates an error of the given kind without a message.
    pub fn of_kind(kind: ErrorKind) -> (r: Error)
        ensures
            r.spec_kind() == kind,
    {
        Error { kind, message: None }
    }

    /// The kind of this error.
    pub fn kind(&self) -> (r: ErrorKind)
        ensures
            r == self.spec_kind(),
    {
        self.kind
    }
}

impl From<ErrorKind> for Error {
    fn from(kind: ErrorKind) -> (r: Error) {
        Error { kind, message: None }
    }
}

impl vstd::std_specs::convert::FromSpecImpl<ErrorKind> for Error {
    open spec fn obeys_from_spec() -> bool {
        true
    }

    closed spec fn from_spec(kind: ErrorKind) -> Error {
        Error { kind, message: None }
    }
}

/// Whether an executable result agrees with a specification result: equal
/// values on success, the stated kind on failure.
pub open spec fn res_matches(r: Result<i64, Error>, s: Result<i64, ErrorKind>) -> bool {
    match r {
        Ok(v) => match s {
            Ok(w) => v == w,
            Err(k) => false,
        },
        Err(e) => match s {
            Ok(w) => false,
            Err(k) => e.spec_kind() == k,
        },
    }
}

} // verus!
