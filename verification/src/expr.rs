//! Expression trees.
use vstd::prelude::*;
use crate::token::{Token, TokenType};
use crate::value::Value;

verus! {

/// A constant written in the source.
#[derive(Debug)]
pub enum Literal {
    /// A double, as its bit pattern.
    Number(u64),
    String(String),
    Boolean(bool),
    Nil,
}

impl View for Literal {
    type V = Value;

    /// The value that the literal denotes.
    open spec fn view(&self) -> Value {
        match *self {
            Literal::Number(n) => Value::Number(n),
            Literal::String(s) => Value::String(s@),
            Literal::Boolean(b) => Value::Boolean(b),
            Literal::Nil => Value::Nil,
        }
    }
}

impl Clone for Literal {
    fn clone(&self) -> (copy: Literal)
        ensures
            copy == *self,
    {
        match self {
            Literal::Number(n) => Literal::Number(*n),
            Literal::String(s) => Literal::String(s.clone()),
            Literal::Boolean(b) => Literal::Boolean(*b),
            Literal::Nil => Literal::Nil,
        }
    }
}

/// An expression.
#[derive(Debug)]
pub enum Expr {
    Literal(Literal),
    Grouping(Box<Expr>),
    /// An operator and its operand.
    Unary(Token, Box<Expr>),
    /// Left operand, operator, right operand.
    Binary(Box<Expr>, Token, Box<Expr>),
    /// Left operand, `and` or `or`, right operand.
    Logical(Box<Expr>, Token, Box<Expr>),
    /// A read of the variable that the token names.
    Variable(Token),
    /// An assignment to the variable that the token names.
    Assign(Token, Box<Expr>),
}

/// Whether a token of this kind can stand as a unary operator.
pub open spec fn unary_operator(kind: TokenType) -> bool {
    kind == TokenType::Bang || kind == TokenType::Minus
}

/// Whether a token of this kind can stand as a binary operator.
pub open spec fn binary_operator(kind: TokenType) -> bool {
    ||| kind == TokenType::EqualEqual
    ||| kind == TokenType::BangEqual
    ||| kind == TokenType::Minus
    ||| kind == TokenType::Slash
    ||| kind == TokenType::Star
    ||| kind == TokenType::Plus
    ||| kind == TokenType::Greater
    ||| kind == TokenType::GreaterEqual
    ||| kind == TokenType::Less
    ||| kind == TokenType::LessEqual
}

/// Whether a token of this kind is a unary operator.
pub fn is_unary_operator(kind: TokenType) -> (yes: bool)
    ensures
        yes == unary_operator(kind),
{
    match kind {
        TokenType::Bang | TokenType::Minus => true,
        _ => false,
    }
}

/// Whether a token of this kind is a binary operator.
pub fn is_binary_operator(kind: TokenType) -> (yes: bool)
    ensures
        yes == binary_operator(kind),
{
    match kind {
        TokenType::EqualEqual
        | TokenType::BangEqual
        | TokenType::Minus
        | TokenType::Slash
        | TokenType::Star
        | TokenType::Plus
        | TokenType::Greater
        | TokenType::GreaterEqual
        | TokenType::Less
        | TokenType::LessEqual => true,
        _ => false,
    }
}

impl Expr {
    /// How deep the tree is.
    pub open spec fn depth(self) -> nat
        decreases self,
    {
        match self {
            Expr::Literal(_) => 0,
            Expr::Grouping(inner) => 1 + inner.depth(),
            Expr::Unary(_, right) => 1 + right.depth(),
            Expr::Binary(left, _, right) => 1 + vstd::math::max(
                left.depth() as int,
                right.depth() as int,
            ) as nat,
            Expr::Logical(left, _, right) => 1 + vstd::math::max(
                left.depth() as int,
                right.depth() as int,
            ) as nat,
            Expr::Variable(_) => 0,
            Expr::Assign(_, value) => 1 + value.depth(),
        }
    }

    /// Whether every operator in the tree is one that its position admits.
    /// The evaluator takes such trees only.
    pub open spec fn well_formed(self) -> bool
        decreases self,
    {
        match self {
            Expr::Literal(_) => true,
            Expr::Grouping(inner) => inner.well_formed(),
            Expr::Unary(op, right) => unary_operator(op.kind) && right.well_formed(),
            Expr::Binary(left, op, right) => {
                &&& binary_operator(op.kind)
                &&& left.well_formed()
                &&& right.well_formed()
            },
            Expr::Logical(left, _, right) => left.well_formed() && right.well_formed(),
            Expr::Variable(_) => true,
            Expr::Assign(_, value) => value.well_formed(),
        }
    }

    /// Checks the tree's operators.
    pub fn is_well_formed(&self) -> (yes: bool)
        ensures
            yes == self.well_formed(),
        decreases *self,
    {
        match self {
            Expr::Literal(_) => true,
            Expr::Grouping(inner) => inner.is_well_formed(),
            Expr::Unary(op, right) => is_unary_operator(op.kind) && right.is_well_formed(),
            Expr::Binary(left, op, right) => {
                is_binary_operator(op.kind) && left.is_well_formed() && right.is_well_formed()
            },
            Expr::Logical(left, _, right) => left.is_well_formed() && right.is_well_formed(),
            Expr::Variable(_) => true,
            Expr::Assign(_, value) => value.is_well_formed(),
        }
    }
}

} // verus!
