use vstd::prelude::*;

verus! {

/// Every way in which lexing, parsing or evaluation can fail.
#[derive(PartialEq, Eq, Debug, Clone)]
pub enum Error {
    /// A character that starts no token: that character.
    LexError(char),
    /// An unexpected token, trailing tokens, an empty `cond`, or a missing token.
    ParseError,
    /// A call whose argument count differs from the callee's parameter count.
    ArityError,
    /// A variable or function that is not bound: its name.
    UnboundNameError(String),
    /// Division or modulo by zero, or a result outside the 32-bit range.
    ArithmeticError,
    /// A `cond` none of whose conditions holds.
    NoMatchingCaseError,
    /// An operand whose value has the wrong kind (a boolean where a number is needed, or the reverse).
    TypeError,
    /// A function definition reached general evaluation.
    InternalError,
    /// Calls nested deeper than the call budget given to the interpreter.
    DepthError,
}

/// The mathematical form of an error: a name is a character sequence.
pub enum ErrorModel {
    LexError(char),
    ParseError,
    ArityError,
    UnboundNameError(Seq<char>),
    ArithmeticError,
    NoMatchingCaseError,
    TypeError,
    InternalError,
    DepthError,
}

impl View for Error {
    type V = ErrorModel;

    open spec fn view(&self) -> ErrorModel {
        match self {
            Error::LexError(c) => ErrorModel::LexError(*c),
            Error::ParseError => ErrorModel::ParseError,
            Error::ArityError => ErrorModel::ArityError,
            Error::UnboundNameError(n) => ErrorModel::UnboundNameError(n@),
            Error::ArithmeticError => ErrorModel::ArithmeticError,
            Error::NoMatchingCaseError => ErrorModel::NoMatchingCaseError,
            Error::TypeError => ErrorModel::TypeError,
            Error::InternalError => ErrorModel::InternalError,
            Error::DepthError => ErrorModel::DepthError,
        }
    }
}

/// A result with its error, if any, in mathematical form.
pub open spec fn err_view<T>(r: Result<T, Error>) -> Result<T, ErrorModel> {
    match r {
        Ok(v) => Ok(v),
        Err(e) => Err(e@),
    }
}

} // verus!
