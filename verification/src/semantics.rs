//! What programs mean: the value of an expression and the effect of a
//! statement, as functions of the tree and the state it runs in.
use vstd::prelude::*;
use crate::environment::{assign, bound, define, lookup, Scopes};
use crate::error::{
    plus_message, two_numbers_message, unary_minus_message, undefined_variable_message,
};
use crate::expr::Expr;
use crate::number;
use crate::stmt::Stmt;
use crate::token::{Token, TokenType};
use crate::value::Value;

verus! {

/// Why evaluation stopped: the token at fault and the message.
pub struct Failure {
    pub token: Token,
    pub message: Seq<char>,
}

/// What evaluating an expression comes to. Either way the scopes are those
/// that evaluation leaves behind: assignments made before a failure stay.
pub enum Evaluation {
    Value(Value, Scopes),
    Failed(Failure, Scopes),
}

/// What an operator makes of its operands: a value, or the message of the
/// error it raises.
pub type Applied = Result<Value, Seq<char>>;

/// An operator's value.
pub open spec fn yields(value: Value) -> Applied {
    Ok(value)
}

/// An operator's refusal, with its message.
pub open spec fn refuses(message: Seq<char>) -> Applied {
    Err(message)
}

/// A unary operator applied to its operand. `!` negates the operand's
/// truthiness; `-` negates a number and rejects anything else. A kind that is
/// no unary operator is read as `-`; no well-formed tree holds one.
pub open spec fn apply_unary(kind: TokenType, operand: Value) -> Applied {
    if kind == TokenType::Bang {
        Ok(Value::Boolean(!operand.truthy()))
    } else {
        match operand {
            Value::Number(n) => Ok(Value::Number(number::negation(n))),
            _ => Err(unary_minus_message()),
        }
    }
}

/// Whether the operator takes two numbers and nothing else.
pub open spec fn numeric_operator(kind: TokenType) -> bool {
    ||| kind == TokenType::Minus
    ||| kind == TokenType::Slash
    ||| kind == TokenType::Star
    ||| kind == TokenType::Greater
    ||| kind == TokenType::GreaterEqual
    ||| kind == TokenType::Less
    ||| kind == TokenType::LessEqual
}

/// An arithmetic or relational operator applied to two numbers. A kind that
/// is neither is read as `<=`; no well-formed tree holds one.
pub open spec fn apply_numeric(kind: TokenType, a: u64, b: u64) -> Value {
    match kind {
        TokenType::Minus => Value::Number(number::difference(a, b)),
        TokenType::Slash => Value::Number(number::quotient(a, b)),
        TokenType::Star => Value::Number(number::product(a, b)),
        TokenType::Greater => Value::Boolean(number::less(b, a)),
        TokenType::GreaterEqual => Value::Boolean(number::less_or_equal(b, a)),
        TokenType::Less => Value::Boolean(number::less(a, b)),
        _ => Value::Boolean(number::less_or_equal(a, b)),
    }
}

/// A binary operator applied to its operands. `==` and `!=` take anything;
/// `+` takes two numbers or two strings; the others take two numbers.
pub open spec fn apply_binary(kind: TokenType, left: Value, right: Value) -> Applied {
    if kind == TokenType::EqualEqual {
        Ok(Value::Boolean(left.equals(right)))
    } else if kind == TokenType::BangEqual {
        Ok(Value::Boolean(!left.equals(right)))
    } else if kind == TokenType::Plus {
        match (left, right) {
            (Value::Number(a), Value::Number(b)) => Ok(Value::Number(number::sum(a, b))),
            (Value::String(a), Value::String(b)) => Ok(Value::String(a + b)),
            _ => Err(plus_message()),
        }
    } else {
        match (left, right) {
            (Value::Number(a), Value::Number(b)) => Ok(apply_numeric(kind, a, b)),
            _ => Err(two_numbers_message()),
        }
    }
}

/// The outcome of an operator at `op` whose operands left `scopes` behind.
pub open spec fn applied(op: Token, result: Applied, scopes: Scopes) -> Evaluation {
    match result {
        Ok(value) => Evaluation::Value(value, scopes),
        Err(message) => Evaluation::Failed(Failure { token: op, message }, scopes),
    }
}

/// Whether the left operand of a logical expression decides it: a truthy one
/// under `or`, a falsy one under `and`.
pub open spec fn decided(kind: TokenType, left: Value) -> bool {
    if kind == TokenType::Or {
        left.truthy()
    } else {
        !left.truthy()
    }
}

/// The value of an expression in the given scopes.
///
/// Operands are evaluated left to right, and the first failure ends the
/// evaluation. `or` yields its left operand if that is truthy, `and` if it is
/// falsy, without evaluating the right one; otherwise both yield the right
/// operand. A logical expression under any token but `or` is an `and`. An
/// assignment yields the value it assigned.
pub open spec fn evaluate(expr: Expr, scopes: Scopes) -> Evaluation
    decreases expr,
{
    match expr {
        Expr::Literal(literal) => Evaluation::Value(literal@, scopes),
        Expr::Grouping(inner) => evaluate(*inner, scopes),
        Expr::Unary(op, right) => match evaluate(*right, scopes) {
            Evaluation::Value(operand, after) => applied(op, apply_unary(op.kind, operand), after),
            failed => failed,
        },
        Expr::Binary(left, op, right) => match evaluate(*left, scopes) {
            Evaluation::Value(a, after_left) => match evaluate(*right, after_left) {
                Evaluation::Value(b, after_right) => applied(
                    op,
                    apply_binary(op.kind, a, b),
                    after_right,
                ),
                failed => failed,
            },
            failed => failed,
        },
        Expr::Logical(left, op, right) => match evaluate(*left, scopes) {
            Evaluation::Value(a, after_left) => if decided(op.kind, a) {
                Evaluation::Value(a, after_left)
            } else {
                evaluate(*right, after_left)
            },
            failed => failed,
        },
        Expr::Variable(token) => match lookup(scopes, token.name()) {
            Some(value) => Evaluation::Value(value, scopes),
            None => Evaluation::Failed(
                Failure { token, message: undefined_variable_message() },
                scopes,
            ),
        },
        Expr::Assign(token, value) => match evaluate(*value, scopes) {
            Evaluation::Value(v, after) => if bound(after, token.name()) {
                Evaluation::Value(v, assign(after, token.name(), v))
            } else {
                Evaluation::Failed(Failure { token, message: undefined_variable_message() }, after)
            },
            failed => failed,
        },
    }
}

/// The state a program runs in: its scopes, and the values it has printed,
/// the first one first.
#[verifier::ext_equal]
pub struct State {
    pub scopes: Scopes,
    pub output: Seq<Value>,
}

/// How running a statement ends.
pub enum Outcome {
    /// It ran to its end and left this state.
    Completed(State),
    /// It stopped at a failure, in this state.
    Failed(Failure, State),
    /// It ran out of fuel at the start of a loop iteration, in this state.
    Unfinished(State),
}

/// The effect of a statement on the state, with `fuel` to bound its loops:
/// a loop may start an iteration only while fuel is left, and each iteration
/// leaves one less for the rest of that loop. An outcome other than
/// `Unfinished` is the same for any greater amount.
///
/// A block runs in a scope of its own, which is closed again only if the
/// block completes. A loop tests its condition anew before every iteration.
pub open spec fn execute(stmt: Stmt, state: State, fuel: nat) -> Outcome
    decreases fuel, stmt,
{
    match stmt {
        Stmt::Empty => Outcome::Completed(state),
        Stmt::Block(stmts) => {
            let inside = State { scopes: state.scopes.push(Map::empty()), output: state.output };
            match execute_all(stmts@, inside, fuel) {
                Outcome::Completed(end) => Outcome::Completed(
                    State { scopes: end.scopes.drop_last(), output: end.output },
                ),
                other => other,
            }
        },
        Stmt::Expression(e) => match evaluate(*e, state.scopes) {
            Evaluation::Value(_, scopes) => Outcome::Completed(
                State { scopes, output: state.output },
            ),
            Evaluation::Failed(failure, scopes) => Outcome::Failed(
                failure,
                State { scopes, output: state.output },
            ),
        },
        Stmt::Print(e) => match evaluate(*e, state.scopes) {
            Evaluation::Value(value, scopes) => Outcome::Completed(
                State { scopes, output: state.output.push(value) },
            ),
            Evaluation::Failed(failure, scopes) => Outcome::Failed(
                failure,
                State { scopes, output: state.output },
            ),
        },
        Stmt::Var(name, init) => match evaluate(*init, state.scopes) {
            Evaluation::Value(value, scopes) => Outcome::Completed(
                State { scopes: define(scopes, name@, value), output: state.output },
            ),
            Evaluation::Failed(failure, scopes) => Outcome::Failed(
                failure,
                State { scopes, output: state.output },
            ),
        },
        Stmt::If(cond, then_branch, else_branch) => match evaluate(*cond, state.scopes) {
            Evaluation::Value(value, scopes) => {
                let next = State { scopes, output: state.output };
                if value.truthy() {
                    execute(*then_branch, next, fuel)
                } else {
                    execute(*else_branch, next, fuel)
                }
            },
            Evaluation::Failed(failure, scopes) => Outcome::Failed(
                failure,
                State { scopes, output: state.output },
            ),
        },
        Stmt::While(cond, body) => match evaluate(*cond, state.scopes) {
            Evaluation::Value(value, scopes) => {
                let next = State { scopes, output: state.output };
                if !value.truthy() {
                    Outcome::Completed(next)
                } else if fuel == 0 {
                    Outcome::Unfinished(next)
                } else {
                    match execute(*body, next, fuel) {
                        Outcome::Completed(after) => execute(stmt, after, (fuel - 1) as nat),
                        other => other,
                    }
                }
            },
            Evaluation::Failed(failure, scopes) => Outcome::Failed(
                failure,
                State { scopes, output: state.output },
            ),
        },
    }
}

/// The effect of statements run in order, up to the first that does not
/// complete.
pub open spec fn execute_all(stmts: Seq<Stmt>, state: State, fuel: nat) -> Outcome
    decreases fuel, stmts,
{
    if stmts.len() == 0 {
        Outcome::Completed(state)
    } else {
        match execute_all(stmts.drop_last(), state, fuel) {
            Outcome::Completed(before_last) => execute(stmts.last(), before_last, fuel),
            other => other,
        }
    }
}

/// Whether the statements come to an end, whatever it is, from the state.
pub open spec fn terminates(stmts: Seq<Stmt>, state: State) -> bool {
    exists|fuel: nat| !(#[trigger] execute_all(stmts, state, fuel) is Unfinished)
}

/// How running the statements from the state ends.
pub open spec fn run(stmts: Seq<Stmt>, state: State) -> Outcome {
    execute_all(
        stmts,
        state,
        choose|fuel: nat| !(#[trigger] execute_all(stmts, state, fuel) is Unfinished),
    )
}

} // verus!
