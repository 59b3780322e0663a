//! What evaluation reports when it cannot go on.
use vstd::prelude::*;
use crate::token::Token;

verus! {

/// The message of an error for a name that no scope binds.
pub open spec fn undefined_variable_message() -> Seq<char> {
    "undefined variable"@
}

/// The message of an error for an arithmetic or relational operator whose
/// operands are not both numbers.
pub open spec fn two_numbers_message() -> Seq<char> {
    "operands must be two numbers"@
}

/// The message of an error for a `+` whose operands are neither two numbers
/// nor two strings.
pub open spec fn plus_message() -> Seq<char> {
    "+ needs either strings or numbers"@
}

/// The message of an error for a unary minus on something other than a number.
pub open spec fn unary_minus_message() -> Seq<char> {
    "unary minus only applicable to numbers"@
}

/// An error of the runtime.
#[derive(Debug)]
pub enum Error {
    /// A fault of the program being run: the token it is attributed to, and
    /// what went wrong.
    Runtime(Token, String),
    /// A value could not be turned into the type that was asked for.
    TryFrom(String),
}

impl Error {
    /// A runtime error attributed to a copy of `token`.
    pub fn runtime(token: &Token, message: &str) -> (error: Error)
        ensures
            error.is_runtime(*token, message@),
    {
        Error::Runtime(token.clone(), message.to_owned())
    }

    /// Whether this is the runtime error with the given token and message.
    pub open spec fn is_runtime(&self, token: Token, message: Seq<char>) -> bool {
        match *self {
            Error::Runtime(t, m) => t == token && m@ == message,
            Error::TryFrom(_) => false,
        }
    }
}

} // verus!
