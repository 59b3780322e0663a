//! The runtime of a small dynamically typed scripting language.
//!
//! A program arrives as a tree of statements ([`stmt`]) and expressions
//! ([`expr`]) whose operators and names are tokens ([`token`]). The
//! [`interpreter`] walks the tree: it reduces expressions to values
//! ([`value`]), keeps variables in a stack of scopes ([`environment`]), and
//! collects what the program prints. Numbers are doubles, computed here in
//! integer arithmetic on their bit patterns ([`number`], [`rounding`]).
//!
//! What a program means is defined in [`semantics`], apart from the code that
//! runs it; the interpreter's contracts say that it does exactly that, and
//! [`laws`] states what follows for every program.
pub mod environment;
pub mod error;
pub mod expr;
pub mod interpreter;
pub mod laws;
pub mod number;
pub mod rounding;
pub mod semantics;
pub mod stmt;
pub mod token;
pub mod value;

pub use crate::error::Error;
pub use crate::interpreter::Interpreter;
pub use crate::token::{Token, TokenType};
