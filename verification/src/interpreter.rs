//! The evaluator: walks a tree and does what it says.
use vstd::prelude::*;
use vstd::string::StringExecFns;
use crate::environment::Environment;
use crate::error::Error;
use crate::expr::{binary_operator, unary_operator, Expr};
use crate::number;
use crate::semantics;
use crate::semantics::{Applied, Evaluation, Outcome, State};
use crate::stmt::{all_well_formed, Stmt};
use crate::token::{Token, TokenType};
use crate::value::{LoxValue, Value};

verus! {

/// What a list of values stands for.
pub open spec fn values_view(values: Seq<LoxValue>) -> Seq<Value> {
    values.map_values(|v: LoxValue| v@)
}

/// Whether `result` is what an operator's outcome at `op` calls for.
pub open spec fn reports_applied(
    result: Result<LoxValue, Error>,
    op: Token,
    outcome: Applied,
) -> bool {
    match outcome {
        Ok(value) => result matches Ok(got) && got@ == value,
        Err(message) => result matches Err(error) && error.is_runtime(op, message),
    }
}

/// Whether `result`, with `scopes` left behind, is what an evaluation calls
/// for.
pub open spec fn reports_value(
    result: Result<LoxValue, Error>,
    scopes: Seq<Map<Seq<char>, Value>>,
    evaluation: Evaluation,
) -> bool {
    match evaluation {
        Evaluation::Value(value, after) => {
            &&& result matches Ok(got)
            &&& got@ == value
            &&& scopes =~= after
        },
        Evaluation::Failed(failure, after) => {
            &&& result matches Err(error)
            &&& error.is_runtime(failure.token, failure.message)
            &&& scopes =~= after
        },
    }
}

/// Whether `result`, with `state` left behind, is what an outcome calls for.
/// Nothing is what an unfinished run calls for.
pub open spec fn reports(result: Result<(), Error>, state: State, outcome: Outcome) -> bool {
    match outcome {
        Outcome::Completed(end) => result is Ok && state =~= end,
        Outcome::Failed(failure, end) => {
            &&& result matches Err(error)
            &&& error.is_runtime(failure.token, failure.message)
            &&& state =~= end
        },
        Outcome::Unfinished(_) => false,
    }
}

/// Statements after one that did not complete do not run: where a prefix does
/// not complete, the whole ends as the prefix does.
pub proof fn lemma_prefix_decides(stmts: Seq<Stmt>, state: State, fuel: nat, i: int)
    requires
        0 <= i <= stmts.len(),
        !(semantics::execute_all(stmts.take(i), state, fuel) is Completed),
    ensures
        semantics::execute_all(stmts, state, fuel) == semantics::execute_all(
            stmts.take(i),
            state,
            fuel,
        ),
    decreases stmts.len(),
{
    if i < stmts.len() {
        assert(stmts.drop_last().take(i) =~= stmts.take(i));
        lemma_prefix_decides(stmts.drop_last(), state, fuel, i);
    } else {
        assert(stmts.take(i) =~= stmts);
    }
}

/// Running one statement more: the first `i + 1` statements end as the
/// statement at `i` does from where the first `i` completed.
pub proof fn lemma_one_more(stmts: Seq<Stmt>, state: State, fuel: nat, i: int, before: State)
    requires
        0 <= i < stmts.len(),
        semantics::execute_all(stmts.take(i), state, fuel) == Outcome::Completed(before),
    ensures
        semantics::execute_all(stmts.take(i + 1), state, fuel) == semantics::execute(
            stmts[i],
            before,
            fuel,
        ),
{
    assert(stmts.take(i + 1).drop_last() =~= stmts.take(i));
    assert(stmts.take(i + 1).last() == stmts[i]);
}

/// Whether `result`, with `state` left behind, is what an outcome calls for,
/// where `Ok(false)` stands for a run that did not finish.
pub open spec fn reports_within(
    result: Result<bool, Error>,
    state: State,
    outcome: Outcome,
) -> bool {
    match outcome {
        Outcome::Completed(end) => result == Ok::<bool, Error>(true) && state =~= end,
        Outcome::Failed(failure, end) => {
            &&& result matches Err(error)
            &&& error.is_runtime(failure.token, failure.message)
            &&& state =~= end
        },
        Outcome::Unfinished(end) => result == Ok::<bool, Error>(false) && state =~= end,
    }
}

/// Whether the fuel is what a run goes by: the limit where there is one, and
/// otherwise enough for the outcome.
pub open spec fn fueled(limit: Option<u64>, fuel: nat, outcome: Outcome) -> bool {
    match limit {
        Some(n) => fuel == n,
        None => !(outcome is Unfinished),
    }
}

/// Checks that both operands are numbers.
pub fn assert_two_numbers(op: &Token, left: &LoxValue, right: &LoxValue) -> (result: Result<
    (),
    Error,
>)
    ensures
        (left@ is Number && right@ is Number) ==> result is Ok,
        !(left@ is Number && right@ is Number) ==> (result matches Err(error) && error.is_runtime(
            *op,
            crate::error::two_numbers_message(),
        )),
{
    if left.type_matches(right) && left.is_number() {
        Ok(())
    } else {
        Err(Error::runtime(op, "operands must be two numbers"))
    }
}

/// Applies a unary operator to the value of its operand.
pub fn apply_unary(op: &Token, operand: LoxValue) -> (result: Result<LoxValue, Error>)
    requires
        unary_operator(op.kind),
    ensures
        reports_applied(result, *op, semantics::apply_unary(op.kind, operand@)),
{
    match op.kind {
        TokenType::Bang => Ok(LoxValue::Boolean(!operand.is_truthy())),
        _ => {
            if let LoxValue::Number(n) = operand {
                Ok(LoxValue::Number(number::negate(n)))
            } else {
                Err(Error::runtime(op, "unary minus only applicable to numbers"))
            }
        },
    }
}

/// Applies a binary operator to the values of its operands.
pub fn apply_binary(op: &Token, left: LoxValue, right: LoxValue) -> (result: Result<
    LoxValue,
    Error,
>)
    requires
        binary_operator(op.kind),
    ensures
        reports_applied(result, *op, semantics::apply_binary(op.kind, left@, right@)),
{
    match op.kind {
        TokenType::EqualEqual => Ok(LoxValue::Boolean(left.eq(&right))),
        TokenType::BangEqual => Ok(LoxValue::Boolean(!left.eq(&right))),
        TokenType::Plus => match (left, right) {
            (LoxValue::Number(a), LoxValue::Number(b)) => Ok(LoxValue::Number(number::add(a, b))),
            (LoxValue::String(a), LoxValue::String(b)) => Ok(
                LoxValue::String(a.concat(b.as_str())),
            ),
            _ => Err(Error::runtime(op, "+ needs either strings or numbers")),
        },
        kind => {
            match assert_two_numbers(op, &left, &right) {
                Err(error) => Err(error),
                Ok(()) => {
                    let a = left.as_number();
                    let b = right.as_number();
                    Ok(
                        match kind {
                            TokenType::Minus => LoxValue::Number(number::subtract(a, b)),
                            TokenType::Slash => LoxValue::Number(number::divide(a, b)),
                            TokenType::Star => LoxValue::Number(number::multiply(a, b)),
                            TokenType::Greater => LoxValue::Boolean(number::less_than(b, a)),
                            TokenType::GreaterEqual => LoxValue::Boolean(number::at_most(b, a)),
                            TokenType::Less => LoxValue::Boolean(number::less_than(a, b)),
                            _ => LoxValue::Boolean(number::at_most(a, b)),
                        },
                    )
                },
            }
        },
    }
}

/// An interpreter: the scopes of the program it runs, and what the program
/// has printed.
pub struct Interpreter {
    env: Environment,
    output: Vec<LoxValue>,
}

impl View for Interpreter {
    type V = State;

    closed spec fn view(&self) -> State {
        State { scopes: self.env@, output: values_view(self.output@) }
    }
}

impl Interpreter {
    /// Whether the outermost scope is there. It always is: `new` opens it and
    /// nothing closes it.
    pub open spec fn wf(&self) -> bool {
        self@.scopes.len() > 0
    }

    /// An interpreter with one empty scope that has printed nothing.
    pub fn new() -> (interpreter: Interpreter)
        ensures
            interpreter.wf(),
            interpreter@.scopes == seq![Map::<Seq<char>, Value>::empty()],
            interpreter@.output == Seq::<Value>::empty(),
    {
        Interpreter { env: Environment::new(), output: Vec::new() }
    }

    /// What has been printed and not yet taken, the first value first.
    pub fn output(&self) -> (values: &Vec<LoxValue>)
        ensures
            values_view(values@) == self@.output,
    {
        &self.output
    }

    /// Hands over what has been printed and starts anew with nothing.
    pub fn take_output(&mut self) -> (values: Vec<LoxValue>)
        ensures
            values_view(values@) == old(self)@.output,
            final(self)@.output == Seq::<Value>::empty(),
            final(self)@.scopes == old(self)@.scopes,
    {
        let mut values: Vec<LoxValue> = Vec::new();
        std::mem::swap(&mut values, &mut self.output);
        values
    }

    /// Runs the statements in order, up to the first that fails.
    ///
    /// The statements are well formed and come to an end from the current
    /// state; a program that loops forever is not taken. What was printed is
    /// added to the output, also where a statement fails; scopes that a failed
    /// block had opened stay open.
    pub fn interpret(&mut self, statements: Vec<Stmt>) -> (result: Result<(), Error>)
        requires
            old(self).wf(),
            all_well_formed(statements@),
            semantics::terminates(statements@, old(self)@),
        ensures
            reports(result, final(self)@, semantics::run(statements@, old(self)@)),
            final(self).wf(),
    {
        let ghost fuel = choose|fuel: nat|
            !(#[trigger] semantics::execute_all(statements@, old(self)@, fuel) is Unfinished);
        match self.execute_all(&statements, None, Ghost(fuel)) {
            Ok(_) => Ok(()),
            Err(error) => Err(error),
        }
    }

    /// Runs the statements in order, up to the first that fails, with at most
    /// `limit` as fuel for their loops, and says whether they came to their
    /// end. Where they did not, the statements that ran have had their effect.
    pub fn interpret_within(&mut self, statements: Vec<Stmt>, limit: u64) -> (result: Result<
        bool,
        Error,
    >)
        requires
            old(self).wf(),
            all_well_formed(statements@),
        ensures
            reports_within(
                result,
                final(self)@,
                semantics::execute_all(statements@, old(self)@, limit as nat),
            ),
            final(self).wf(),
    {
        self.execute_all(&statements, Some(limit), Ghost(limit as nat))
    }

    /// Runs the statements in order, up to the first that does not complete.
    /// With a limit, that is the fuel; without one, `fuel` is enough for the
    /// statements to come to an end.
    fn execute_all(
        &mut self,
        stmts: &Vec<Stmt>,
        limit: Option<u64>,
        Ghost(fuel): Ghost<nat>,
    ) -> (result: Result<bool, Error>)
        requires
            old(self).wf(),
            all_well_formed(stmts@),
            fueled(limit, fuel, semantics::execute_all(stmts@, old(self)@, fuel)),
        ensures
            reports_within(result, final(self)@, semantics::execute_all(stmts@, old(self)@, fuel)),
            result == Ok::<bool, Error>(true) ==> final(self)@.scopes.len() == old(
                self,
            )@.scopes.len(),
            final(self)@.scopes.len() >= old(self)@.scopes.len(),
        decreases fuel, *stmts,
    {
        let mut i: usize = 0;
        while i < stmts.len()
            invariant
                i <= stmts.len(),
                all_well_formed(stmts@),
                fueled(limit, fuel, semantics::execute_all(stmts@, old(self)@, fuel)),
                semantics::execute_all(stmts@.take(i as int), old(self)@, fuel)
                    == Outcome::Completed(self@),
                self@.scopes.len() == old(self)@.scopes.len(),
                self.wf(),
            decreases stmts.len() - i,
        {
            proof {
                lemma_one_more(stmts@, old(self)@, fuel, i as int, self@);
                if !(semantics::execute(stmts@[i as int], self@, fuel) is Completed) {
                    lemma_prefix_decides(stmts@, old(self)@, fuel, i + 1);
                }
            }
            match self.execute(&stmts[i], limit, Ghost(fuel)) {
                Ok(true) => {},
                other => {
                    return other;
                },
            }
            i += 1;
        }
        assert(stmts@.take(i as int) =~= stmts@);
        Ok(true)
    }

    /// Runs one statement. With a limit, that is the fuel; without one,
    /// `fuel` is enough for the statement to come to an end.
    fn execute(
        &mut self,
        stmt: &Stmt,
        limit: Option<u64>,
        Ghost(fuel): Ghost<nat>,
    ) -> (result: Result<bool, Error>)
        requires
            old(self).wf(),
            stmt.well_formed(),
            fueled(limit, fuel, semantics::execute(*stmt, old(self)@, fuel)),
        ensures
            reports_within(result, final(self)@, semantics::execute(*stmt, old(self)@, fuel)),
            result == Ok::<bool, Error>(true) ==> final(self)@.scopes.len() == old(
                self,
            )@.scopes.len(),
            final(self)@.scopes.len() >= old(self)@.scopes.len(),
        decreases fuel, *stmt,
    {
        match stmt {
            Stmt::Empty => Ok(true),
            Stmt::Block(block) => {
                self.env.push_scope();
                match self.execute_all(block, limit, Ghost(fuel)) {
                    Ok(true) => {
                        self.env.pop_scope();
                        Ok(true)
                    },
                    other => other,
                }
            },
            Stmt::Expression(e) => match self.eval_expr(e) {
                Ok(_) => Ok(true),
                Err(error) => Err(error),
            },
            Stmt::Print(e) => match self.eval_expr(e) {
                Ok(value) => {
                    self.output.push(value);
                    assert(values_view(self.output@) =~= values_view(old(self).output@).push(
                        value@,
                    ));
                    Ok(true)
                },
                Err(error) => Err(error),
            },
            Stmt::Var(name, init) => match self.eval_expr(init) {
                Ok(value) => {
                    self.env.define(name.as_str(), value);
                    Ok(true)
                },
                Err(error) => Err(error),
            },
            Stmt::If(cond, then_branch, else_branch) => match self.eval_expr(cond) {
                Ok(value) => {
                    if value.is_truthy() {
                        self.execute(then_branch, limit, Ghost(fuel))
                    } else {
                        self.execute(else_branch, limit, Ghost(fuel))
                    }
                },
                Err(error) => Err(error),
            },
            Stmt::While(cond, body) => {
                let ghost mut left = fuel;
                let mut budget = limit;
                loop
                    invariant
                        self.wf(),
                        stmt.well_formed(),
                        *stmt == Stmt::While(*cond, *body),
                        left <= fuel,
                        self@.scopes.len() == old(self)@.scopes.len(),
                        semantics::execute(*stmt, self@, left) == semantics::execute(
                            *stmt,
                            old(self)@,
                            fuel,
                        ),
                        fueled(budget, left, semantics::execute(*stmt, self@, left)),
                    decreases left,
                {
                    let value = match self.eval_expr(cond) {
                        Ok(value) => value,
                        Err(error) => {
                            return Err(error);
                        },
                    };
                    if !value.is_truthy() {
                        return Ok(true);
                    }
                    let rest = match budget {
                        Some(0) => {
                            return Ok(false);
                        },
                        Some(n) => Some((n - 1) as u64),
                        None => None,
                    };
                    match self.execute(body, budget, Ghost(left)) {
                        Ok(true) => {},
                        other => {
                            return other;
                        },
                    }
                    budget = rest;
                    proof {
                        left = (left - 1) as nat;
                    }
                }
            },
        }
    }

    /// Evaluates an expression in the current scopes. Prints nothing, and
    /// opens and closes no scope.
    pub fn eval_expr(&mut self, expr: &Expr) -> (result: Result<LoxValue, Error>)
        requires
            old(self).wf(),
            expr.well_formed(),
        ensures
            reports_value(
                result,
                final(self)@.scopes,
                semantics::evaluate(*expr, old(self)@.scopes),
            ),
            final(self)@.output == old(self)@.output,
            final(self)@.scopes.len() == old(self)@.scopes.len(),
        decreases 2 * expr.depth(),
    {
        match expr {
            Expr::Literal(val) => Ok(LoxValue::from(val.clone())),
            Expr::Grouping(e) => self.eval_expr(e),
            Expr::Unary(op, right) => self.eval_unary_expr(op, right),
            Expr::Binary(left, op, right) => self.eval_binary_expr(left, op, right),
            Expr::Variable(token) => self.env.get(token),
            Expr::Assign(token, value_expr) => {
                let value = match self.eval_expr(value_expr) {
                    Ok(value) => value,
                    Err(error) => {
                        return Err(error);
                    },
                };
                match self.env.assign(token, value.clone()) {
                    Ok(()) => Ok(value),
                    Err(error) => Err(error),
                }
            },
            Expr::Logical(left, op, right) => {
                let left_val = match self.eval_expr(left) {
                    Ok(value) => value,
                    Err(error) => {
                        return Err(error);
                    },
                };
                let left_true = left_val.is_truthy();
                if op.kind_matches(&TokenType::Or) {
                    if left_true {
                        Ok(left_val)
                    } else {
                        self.eval_expr(right)
                    }
                } else {
                    if left_true {
                        self.eval_expr(right)
                    } else {
                        Ok(left_val)
                    }
                }
            },
        }
    }

    /// Evaluates the operand, then applies the operator to its value.
    pub fn eval_unary_expr(&mut self, op: &Token, right: &Expr) -> (result: Result<LoxValue, Error>)
        requires
            old(self).wf(),
            unary_operator(op.kind),
            right.well_formed(),
        ensures
            reports_value(
                result,
                final(self)@.scopes,
                semantics::evaluate(Expr::Unary(*op, Box::new(*right)), old(self)@.scopes),
            ),
            final(self)@.output == old(self)@.output,
            final(self)@.scopes.len() == old(self)@.scopes.len(),
        decreases 2 * right.depth() + 1,
    {
        match self.eval_expr(right) {
            Ok(operand) => apply_unary(op, operand),
            Err(error) => Err(error),
        }
    }

    /// Evaluates the left operand, then the right one, then applies the
    /// operator to their values.
    pub fn eval_binary_expr(&mut self, left: &Expr, op: &Token, right: &Expr) -> (result: Result<
        LoxValue,
        Error,
    >)
        requires
            old(self).wf(),
            binary_operator(op.kind),
            left.well_formed(),
            right.well_formed(),
        ensures
            reports_value(
                result,
                final(self)@.scopes,
                semantics::evaluate(
                    Expr::Binary(Box::new(*left), *op, Box::new(*right)),
                    old(self)@.scopes,
                ),
            ),
            final(self)@.output == old(self)@.output,
            final(self)@.scopes.len() == old(self)@.scopes.len(),
        decreases 2 * vstd::math::max(left.depth() as int, right.depth() as int) + 1,
    {
        let left = match self.eval_expr(left) {
            Ok(value) => value,
            Err(error) => {
                return Err(error);
            },
        };
        let right = match self.eval_expr(right) {
            Ok(value) => value,
            Err(error) => {
                return Err(error);
            },
        };
        apply_binary(op, left, right)
    }
}

} // verus!
