//! Lexical tokens, as the tree hands them to the evaluator.
//!
//! The evaluator reads a token for three things only: its kind, which selects
//! an operator's meaning; its lexeme, which names a variable; and its line,
//! which a diagnostic reports.
use vstd::prelude::*;

verus! {

/// The kind of a lexical unit.
#[derive(Clone, Copy, Debug, PartialEq, Eq, Structural)]
pub enum TokenType {
    LeftParen,
    RightParen,
    LeftBrace,
    RightBrace,
    Comma,
    Dot,
    Minus,
    Plus,
    Semicolon,
    Slash,
    Star,
    Bang,
    BangEqual,
    Equal,
    EqualEqual,
    Greater,
    GreaterEqual,
    Less,
    LessEqual,
    Identifier,
    String,
    Number,
    And,
    Class,
    Else,
    False,
    Fun,
    For,
    If,
    Nil,
    Or,
    Print,
    Return,
    Super,
    This,
    True,
    Var,
    While,
    Eof,
}

/// A lexical unit: its kind, its text, and the source line it was read on.
#[derive(Debug)]
pub struct Token {
    pub kind: TokenType,
    pub lexeme: String,
    pub line: usize,
}

impl Token {
    /// A token of the given kind with no text of its own (an operator or a
    /// keyword).
    pub fn new(kind: TokenType, line: usize) -> (token: Token)
        ensures
            token.kind == kind,
            token.lexeme@ == Seq::<char>::empty(),
            token.line == line,
    {
        Token { kind, lexeme: String::new(), line }
    }

    /// An identifier token that names `name`.
    pub fn identifier(name: &str, line: usize) -> (token: Token)
        ensures
            token.kind == TokenType::Identifier,
            token.lexeme@ == name@,
            token.line == line,
    {
        Token { kind: TokenType::Identifier, lexeme: name.to_owned(), line }
    }

    /// The name this token stands for where it occurs as a variable.
    pub open spec fn name(&self) -> Seq<char> {
        self.lexeme@
    }

    /// Whether this token is of the given kind.
    pub fn kind_matches(&self, kind: &TokenType) -> (same: bool)
        ensures
            same == (self.kind == *kind),
    {
        self.kind == *kind
    }
}

impl Clone for Token {
    fn clone(&self) -> (copy: Token)
        ensures
            copy == *self,
    {
        Token { kind: self.kind, lexeme: self.lexeme.clone(), line: self.line }
    }
}

} // verus!
