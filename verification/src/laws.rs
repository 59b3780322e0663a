//! What holds of every program: properties of the language that follow from
//! its semantics.
use vstd::prelude::*;
use crate::environment::{assign, bound, define, innermost, lemma_innermost, lookup, Scopes};
use crate::error::{two_numbers_message, undefined_variable_message};
use crate::expr::Expr;
use crate::number;
use crate::semantics::{
    apply_binary, decided, evaluate, execute, execute_all, numeric_operator, refuses, run,
    terminates, yields, Evaluation, Failure, Outcome, State,
};
use crate::stmt::Stmt;
use crate::token::{Token, TokenType};
use crate::value::Value;

verus! {

/// `-`, `*` and `/` on two numbers yield the number that the operation
/// defines, and the four relations yield the boolean of the comparison.
pub proof fn lemma_numeric_on_numbers(a: u64, b: u64)
    ensures
        apply_binary(TokenType::Minus, Value::Number(a), Value::Number(b)) == yields(
            Value::Number(number::difference(a, b)),
        ),
        apply_binary(TokenType::Star, Value::Number(a), Value::Number(b)) == yields(
            Value::Number(number::product(a, b)),
        ),
        apply_binary(TokenType::Slash, Value::Number(a), Value::Number(b)) == yields(
            Value::Number(number::quotient(a, b)),
        ),
        apply_binary(TokenType::Less, Value::Number(a), Value::Number(b)) == yields(
            Value::Boolean(number::less(a, b)),
        ),
        apply_binary(TokenType::LessEqual, Value::Number(a), Value::Number(b)) == yields(
            Value::Boolean(number::less_or_equal(a, b)),
        ),
        apply_binary(TokenType::Greater, Value::Number(a), Value::Number(b)) == yields(
            Value::Boolean(number::less(b, a)),
        ),
        apply_binary(TokenType::GreaterEqual, Value::Number(a), Value::Number(b)) == yields(
            Value::Boolean(number::less_or_equal(b, a)),
        ),
{
}

/// An arithmetic or relational operator with an operand that is not a number
/// fails, whatever the other operand is.
pub proof fn lemma_numeric_needs_numbers(kind: TokenType, left: Value, right: Value)
    requires
        numeric_operator(kind),
        !(left is Number) || !(right is Number),
    ensures
        apply_binary(kind, left, right) == refuses(two_numbers_message()),
{
}

/// An operator's failure is a failure of the expression, attributed to the
/// operator's token, once both operands have been evaluated.
pub proof fn lemma_operator_failure(
    left: Expr,
    op: Token,
    right: Expr,
    scopes: Scopes,
    a: Value,
    after_left: Scopes,
    b: Value,
    after_right: Scopes,
    message: Seq<char>,
)
    requires
        evaluate(left, scopes) == Evaluation::Value(a, after_left),
        evaluate(right, after_left) == Evaluation::Value(b, after_right),
        apply_binary(op.kind, a, b) == refuses(message),
    ensures
        evaluate(Expr::Binary(Box::new(left), op, Box::new(right)), scopes) == Evaluation::Failed(
            Failure { token: op, message },
            after_right,
        ),
{
}

/// `nil` and `false` are falsy; every number, every string and every callable
/// is truthy, zero and the empty string among them.
pub proof fn lemma_truthiness(value: Value)
    ensures
        value.truthy() <==> !(value is Nil) && value != Value::Boolean(false),
{
}

/// A callable equals no value, itself included, and values of different
/// variants are unequal.
pub proof fn lemma_equality(a: Value, b: Value)
    ensures
        a is Function ==> !a.equals(b) && !b.equals(a),
        !a.same_variant(b) ==> !a.equals(b),
        a.equals(b) == b.equals(a),
{
}

/// Evaluation opens and closes no scope.
pub proof fn lemma_evaluate_keeps_depth(expr: Expr, scopes: Scopes)
    ensures
        match evaluate(expr, scopes) {
            Evaluation::Value(_, after) => after.len() == scopes.len(),
            Evaluation::Failed(_, after) => after.len() == scopes.len(),
        },
    decreases expr,
{
    match expr {
        Expr::Literal(_) => {},
        Expr::Grouping(inner) => lemma_evaluate_keeps_depth(*inner, scopes),
        Expr::Unary(_, right) => lemma_evaluate_keeps_depth(*right, scopes),
        Expr::Binary(left, _, right) => {
            lemma_evaluate_keeps_depth(*left, scopes);
            if let Evaluation::Value(_, after_left) = evaluate(*left, scopes) {
                lemma_evaluate_keeps_depth(*right, after_left);
            }
        },
        Expr::Logical(left, _, right) => {
            lemma_evaluate_keeps_depth(*left, scopes);
            if let Evaluation::Value(_, after_left) = evaluate(*left, scopes) {
                lemma_evaluate_keeps_depth(*right, after_left);
            }
        },
        Expr::Variable(_) => {},
        Expr::Assign(token, value) => {
            lemma_evaluate_keeps_depth(*value, scopes);
            if let Evaluation::Value(_, after) = evaluate(*value, scopes) {
                lemma_innermost_binds(after, token.name());
            }
        },
    }
}

/// `and` with a falsy left operand, and `or` with a truthy one, yield the
/// left operand and leave the scopes as the left operand left them, whatever
/// the right operand is: it is not evaluated.
pub proof fn lemma_short_circuit(
    left: Expr,
    op: Token,
    right: Expr,
    scopes: Scopes,
    a: Value,
    after_left: Scopes,
)
    requires
        evaluate(left, scopes) == Evaluation::Value(a, after_left),
        decided(op.kind, a),
    ensures
        evaluate(Expr::Logical(Box::new(left), op, Box::new(right)), scopes) == Evaluation::Value(
            a,
            after_left,
        ),
{
}

/// Where the left operand does not decide, a logical expression is its right
/// operand, evaluated after the left one.
pub proof fn lemma_logical_continues(
    left: Expr,
    op: Token,
    right: Expr,
    scopes: Scopes,
    a: Value,
    after_left: Scopes,
)
    requires
        evaluate(left, scopes) == Evaluation::Value(a, after_left),
        !decided(op.kind, a),
    ensures
        evaluate(Expr::Logical(Box::new(left), op, Box::new(right)), scopes) == evaluate(
            right,
            after_left,
        ),
{
}

/// Reading a name that no scope binds fails with an error attributed to the
/// reading token, and so does assigning to it; neither changes the scopes.
pub proof fn lemma_undefined_variable(token: Token, value: Expr, scopes: Scopes, v: Value)
    requires
        !bound(scopes, token.name()),
        evaluate(value, scopes) == Evaluation::Value(v, scopes),
    ensures
        evaluate(Expr::Variable(token), scopes) == Evaluation::Failed(
            Failure { token, message: undefined_variable_message() },
            scopes,
        ),
        evaluate(Expr::Assign(token, Box::new(value)), scopes) == Evaluation::Failed(
            Failure { token, message: undefined_variable_message() },
            scopes,
        ),
{
}

/// Once a name is declared, it is bound: reading it yields the declared
/// value, and assigning to it succeeds.
pub proof fn lemma_declared_variable(token: Token, scopes: Scopes, declared: Value)
    requires
        scopes.len() > 0,
    ensures
        bound(define(scopes, token.name(), declared), token.name()),
        evaluate(Expr::Variable(token), define(scopes, token.name(), declared))
            == Evaluation::Value(declared, define(scopes, token.name(), declared)),
{
    let after = define(scopes, token.name(), declared);
    lemma_innermost(after, token.name(), after.len() - 1);
}

/// An assignment yields the value it assigns, and a read of the name
/// afterwards yields that value too.
pub proof fn lemma_assignment(token: Token, value: Expr, scopes: Scopes, v: Value, after: Scopes)
    requires
        evaluate(value, scopes) == Evaluation::Value(v, after),
        bound(after, token.name()),
    ensures
        evaluate(Expr::Assign(token, Box::new(value)), scopes) == Evaluation::Value(
            v,
            assign(after, token.name(), v),
        ),
        lookup(assign(after, token.name(), v), token.name()) == Some(v),
{
    lemma_assign_keeps_binding(after, token.name(), v);
}

/// Assigning to a bound name leaves it bound in the same scope, to the new
/// value.
pub proof fn lemma_assign_keeps_binding(scopes: Scopes, name: Seq<char>, value: Value)
    requires
        bound(scopes, name),
    ensures
        innermost(assign(scopes, name, value), name) == innermost(scopes, name),
        lookup(assign(scopes, name, value), name) == Some(value),
{
    let i = innermost(scopes, name);
    lemma_innermost_binds(scopes, name);
    let after = assign(scopes, name, value);
    assert forall|j: int| i < j < after.len() implies !(#[trigger] after[j]).contains_key(name) by {
        assert(after[j] == scopes[j]);
    }
    lemma_innermost(after, name, i);
}

/// The innermost binding scope binds the name, and no scope inside it does.
pub proof fn lemma_innermost_binds(scopes: Scopes, name: Seq<char>)
    ensures
        -1 <= innermost(scopes, name) < scopes.len(),
        innermost(scopes, name) >= 0 ==> scopes[innermost(scopes, name)].contains_key(name),
        forall|j: int|
            innermost(scopes, name) < j < scopes.len() ==> !(#[trigger] scopes[j]).contains_key(
                name,
            ),
    decreases scopes.len(),
{
    if scopes.len() > 0 && !scopes.last().contains_key(name) {
        let rest = scopes.drop_last();
        lemma_innermost_binds(rest, name);
        assert forall|j: int| innermost(scopes, name) < j < scopes.len() implies !(
        #[trigger] scopes[j]).contains_key(name) by {
            if j < rest.len() {
                assert(rest[j] == scopes[j]);
            }
        }
        if innermost(scopes, name) >= 0 {
            assert(rest[innermost(scopes, name)] == scopes[innermost(scopes, name)]);
        }
    }
}

/// A declaration inside a block is gone when the block ends: a block of one
/// declaration leaves the scopes as its initializer alone left those outside
/// the block, whatever was declared.
pub proof fn lemma_declaration_ends_with_block(
    block: Vec<Stmt>,
    name: String,
    init: Expr,
    state: State,
    fuel: nat,
    v: Value,
    after: Scopes,
)
    requires
        block@ == seq![Stmt::Var(name, Box::new(init))],
        evaluate(init, state.scopes.push(Map::empty())) == Evaluation::Value(v, after),
    ensures
        execute(Stmt::Block(block), state, fuel) == Outcome::Completed(
            State { scopes: after.drop_last(), output: state.output },
        ),
{
    let inside = State { scopes: state.scopes.push(Map::empty()), output: state.output };
    lemma_evaluate_keeps_depth(init, inside.scopes);
    assert(block@.drop_last() =~= Seq::<Stmt>::empty());
    assert(execute_all(block@.drop_last(), inside, fuel) == Outcome::Completed(inside));
    let declaration = Stmt::Var(name, Box::new(init));
    assert(block@.last() == declaration);
    let declared = State { scopes: define(after, name@, v), output: state.output };
    assert(execute(declaration, inside, fuel) == Outcome::Completed(declared));
    assert(execute_all(block@, inside, fuel) == Outcome::Completed(declared));
    assert(declared.scopes.drop_last() =~= after.drop_last());
}

/// A declaration in a new scope shadows: the name resolves to the declared
/// value there, and to what it resolved to before once the scope is closed.
pub proof fn lemma_shadowing(scopes: Scopes, name: Seq<char>, inner: Value)
    ensures
        lookup(define(scopes.push(Map::empty()), name, inner), name) == Some(inner),
        lookup(define(scopes.push(Map::empty()), name, inner).drop_last(), name) == lookup(
            scopes,
            name,
        ),
{
    let opened = define(scopes.push(Map::empty()), name, inner);
    lemma_innermost(opened, name, opened.len() - 1);
    assert(opened.drop_last() =~= scopes);
}

/// A loop whose condition is falsy at the start runs its body not once: it
/// completes in the state that the condition left, with any fuel.
pub proof fn lemma_loop_not_entered(
    cond: Expr,
    body: Stmt,
    state: State,
    fuel: nat,
    v: Value,
    after: Scopes,
)
    requires
        evaluate(cond, state.scopes) == Evaluation::Value(v, after),
        !v.truthy(),
    ensures
        execute(Stmt::While(Box::new(cond), Box::new(body)), state, fuel) == Outcome::Completed(
            State { scopes: after, output: state.output },
        ),
{
}

/// A statement that completes leaves as many scopes open as it found; one
/// that fails or is cut short leaves at least as many. Each keeps what was
/// printed before it and adds to it.
pub proof fn lemma_scopes_balanced(stmt: Stmt, state: State, fuel: nat)
    requires
        state.scopes.len() > 0,
    ensures
        match execute(stmt, state, fuel) {
            Outcome::Completed(end) => {
                &&& end.scopes.len() == state.scopes.len()
                &&& state.output.is_prefix_of(end.output)
            },
            Outcome::Failed(_, end) => {
                &&& end.scopes.len() >= state.scopes.len()
                &&& state.output.is_prefix_of(end.output)
            },
            Outcome::Unfinished(end) => {
                &&& end.scopes.len() >= state.scopes.len()
                &&& state.output.is_prefix_of(end.output)
            },
        },
    decreases fuel, stmt,
{
    assert(state.output.is_prefix_of(state.output));
    match stmt {
        Stmt::Empty => {},
        Stmt::Block(stmts) => {
            let inside = State { scopes: state.scopes.push(Map::empty()), output: state.output };
            lemma_scopes_balanced_all(stmts@, inside, fuel);
        },
        Stmt::Expression(e) => lemma_evaluate_keeps_depth(*e, state.scopes),
        Stmt::Print(e) => {
            lemma_evaluate_keeps_depth(*e, state.scopes);
            if let Evaluation::Value(value, _) = evaluate(*e, state.scopes) {
                assert(state.output.is_prefix_of(state.output.push(value)));
            }
        },
        Stmt::Var(_, init) => lemma_evaluate_keeps_depth(*init, state.scopes),
        Stmt::If(cond, then_branch, else_branch) => {
            lemma_evaluate_keeps_depth(*cond, state.scopes);
            if let Evaluation::Value(value, scopes) = evaluate(*cond, state.scopes) {
                let next = State { scopes, output: state.output };
                if value.truthy() {
                    lemma_scopes_balanced(*then_branch, next, fuel);
                } else {
                    lemma_scopes_balanced(*else_branch, next, fuel);
                }
            }
        },
        Stmt::While(cond, body) => {
            lemma_evaluate_keeps_depth(*cond, state.scopes);
            if let Evaluation::Value(value, scopes) = evaluate(*cond, state.scopes) {
                let next = State { scopes, output: state.output };
                if value.truthy() && fuel > 0 {
                    lemma_scopes_balanced(*body, next, fuel);
                    if let Outcome::Completed(after) = execute(*body, next, fuel) {
                        lemma_scopes_balanced(stmt, after, (fuel - 1) as nat);
                        lemma_prefix_chain(state.output, after.output, execute(stmt, state, fuel));
                    }
                }
            }
        },
    }
}

/// Statements that complete in order leave as many scopes open as they
/// found; where one fails or is cut short, at least as many are left. What
/// was printed before them stays, and they add to it.
pub proof fn lemma_scopes_balanced_all(stmts: Seq<Stmt>, state: State, fuel: nat)
    requires
        state.scopes.len() > 0,
    ensures
        match execute_all(stmts, state, fuel) {
            Outcome::Completed(end) => {
                &&& end.scopes.len() == state.scopes.len()
                &&& state.output.is_prefix_of(end.output)
            },
            Outcome::Failed(_, end) => {
                &&& end.scopes.len() >= state.scopes.len()
                &&& state.output.is_prefix_of(end.output)
            },
            Outcome::Unfinished(end) => {
                &&& end.scopes.len() >= state.scopes.len()
                &&& state.output.is_prefix_of(end.output)
            },
        },
    decreases fuel, stmts,
{
    assert(state.output.is_prefix_of(state.output));
    if stmts.len() > 0 {
        lemma_scopes_balanced_all(stmts.drop_last(), state, fuel);
        if let Outcome::Completed(before_last) = execute_all(stmts.drop_last(), state, fuel) {
            lemma_scopes_balanced(stmts.last(), before_last, fuel);
            lemma_prefix_chain(state.output, before_last.output, execute_all(stmts, state, fuel));
        }
    }
}

/// What is printed stays printed: the output of a later state extends that of
/// every earlier one.
proof fn lemma_prefix_chain(first: Seq<Value>, second: Seq<Value>, outcome: Outcome)
    requires
        first.is_prefix_of(second),
        match outcome {
            Outcome::Completed(end) => second.is_prefix_of(end.output),
            Outcome::Failed(_, end) => second.is_prefix_of(end.output),
            Outcome::Unfinished(end) => second.is_prefix_of(end.output),
        },
    ensures
        match outcome {
            Outcome::Completed(end) => first.is_prefix_of(end.output),
            Outcome::Failed(_, end) => first.is_prefix_of(end.output),
            Outcome::Unfinished(end) => first.is_prefix_of(end.output),
        },
{
}

/// More fuel changes no outcome but `Unfinished`.
pub proof fn lemma_more_fuel(stmt: Stmt, state: State, fuel: nat, more: nat)
    requires
        fuel <= more,
        !(execute(stmt, state, fuel) is Unfinished),
    ensures
        execute(stmt, state, more) == execute(stmt, state, fuel),
    decreases fuel, stmt,
{
    match stmt {
        Stmt::Block(stmts) => {
            let inside = State { scopes: state.scopes.push(Map::empty()), output: state.output };
            lemma_more_fuel_all(stmts@, inside, fuel, more);
        },
        Stmt::If(cond, then_branch, else_branch) => {
            if let Evaluation::Value(value, scopes) = evaluate(*cond, state.scopes) {
                let next = State { scopes, output: state.output };
                if value.truthy() {
                    lemma_more_fuel(*then_branch, next, fuel, more);
                } else {
                    lemma_more_fuel(*else_branch, next, fuel, more);
                }
            }
        },
        Stmt::While(cond, body) => {
            if let Evaluation::Value(value, scopes) = evaluate(*cond, state.scopes) {
                let next = State { scopes, output: state.output };
                if value.truthy() {
                    lemma_more_fuel(*body, next, fuel, more);
                    if let Outcome::Completed(after) = execute(*body, next, fuel) {
                        lemma_more_fuel(stmt, after, (fuel - 1) as nat, (more - 1) as nat);
                    }
                }
            }
        },
        _ => {},
    }
}

/// More fuel changes no outcome of a sequence but `Unfinished`.
pub proof fn lemma_more_fuel_all(stmts: Seq<Stmt>, state: State, fuel: nat, more: nat)
    requires
        fuel <= more,
        !(execute_all(stmts, state, fuel) is Unfinished),
    ensures
        execute_all(stmts, state, more) == execute_all(stmts, state, fuel),
    decreases fuel, stmts,
{
    if stmts.len() > 0 {
        lemma_more_fuel_all(stmts.drop_last(), state, fuel, more);
        if let Outcome::Completed(before_last) = execute_all(stmts.drop_last(), state, fuel) {
            lemma_more_fuel(stmts.last(), before_last, fuel, more);
        }
    }
}

/// Statements that come to an end with some fuel terminate, and that end is
/// how running them ends.
pub proof fn lemma_run(stmts: Seq<Stmt>, state: State, fuel: nat)
    requires
        !(execute_all(stmts, state, fuel) is Unfinished),
    ensures
        terminates(stmts, state),
        run(stmts, state) == execute_all(stmts, state, fuel),
{
    let chosen = choose|f: nat| !(#[trigger] execute_all(stmts, state, f) is Unfinished);
    if chosen <= fuel {
        lemma_more_fuel_all(stmts, state, chosen, fuel);
    } else {
        lemma_more_fuel_all(stmts, state, fuel, chosen);
    }
}

} // verus!
