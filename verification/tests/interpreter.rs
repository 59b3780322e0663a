use lox::error::Error;
use lox::expr::{is_binary_operator, is_unary_operator, Expr, Literal};
use lox::interpreter::{apply_binary, apply_unary, assert_two_numbers, Interpreter};
use lox::stmt::{are_well_formed, Stmt};
use lox::token::{Token, TokenType};
use lox::value::LoxValue;

fn num(x: f64) -> LoxValue {
    LoxValue::Number(x.to_bits())
}

fn text(s: &str) -> LoxValue {
    LoxValue::String(s.to_string())
}

fn lit_num(x: f64) -> Box<Expr> {
    Box::new(Expr::Literal(Literal::Number(x.to_bits())))
}

fn lit_str(s: &str) -> Box<Expr> {
    Box::new(Expr::Literal(Literal::String(s.to_string())))
}

fn lit_bool(b: bool) -> Box<Expr> {
    Box::new(Expr::Literal(Literal::Boolean(b)))
}

fn lit_nil() -> Box<Expr> {
    Box::new(Expr::Literal(Literal::Nil))
}

fn op(kind: TokenType) -> Token {
    Token::new(kind, 1)
}

fn binary(left: Box<Expr>, kind: TokenType, right: Box<Expr>) -> Box<Expr> {
    Box::new(Expr::Binary(left, op(kind), right))
}

fn unary(kind: TokenType, right: Box<Expr>) -> Box<Expr> {
    Box::new(Expr::Unary(op(kind), right))
}

fn logical(left: Box<Expr>, kind: TokenType, right: Box<Expr>) -> Box<Expr> {
    Box::new(Expr::Logical(left, op(kind), right))
}

fn var(name: &str) -> Box<Expr> {
    Box::new(Expr::Variable(Token::identifier(name, 1)))
}

fn assign(name: &str, value: Box<Expr>) -> Box<Expr> {
    Box::new(Expr::Assign(Token::identifier(name, 1), value))
}

fn declare(name: &str, init: Box<Expr>) -> Stmt {
    Stmt::Var(name.to_string(), init)
}

fn eval(expr: &Expr) -> Result<LoxValue, Error> {
    Interpreter::new().eval_expr(expr)
}

fn run(statements: Vec<Stmt>) -> (Result<(), Error>, Vec<LoxValue>) {
    let mut interpreter = Interpreter::new();
    assert!(are_well_formed(&statements));
    let result = interpreter.interpret(statements);
    (result, interpreter.take_output())
}

fn runtime_error<T: std::fmt::Debug>(result: Result<T, Error>) -> (Token, String) {
    match result {
        Err(Error::Runtime(token, message)) => (token, message),
        other => panic!("expected a runtime error, got {:?}", other),
    }
}

const NUMERIC: [TokenType; 7] = [
    TokenType::Minus,
    TokenType::Star,
    TokenType::Slash,
    TokenType::Greater,
    TokenType::GreaterEqual,
    TokenType::Less,
    TokenType::LessEqual,
];

#[test]
fn arithmetic_on_numbers_is_ieee_arithmetic() {
    let pairs: Vec<(f64, f64)> = vec![
        (1.0, 2.0),
        (0.1, 0.2),
        (7.0, 0.0),
        (-7.0, 0.0),
        (0.0, 0.0),
        (1e308, 1e308),
        (5e-324, 3.0),
        (f64::INFINITY, f64::INFINITY),
        (f64::NAN, 1.0),
        (123.0, 45.67),
    ];
    for (a, b) in pairs {
        let same = |got: Result<LoxValue, Error>, want: f64| match got {
            Ok(LoxValue::Number(bits)) => {
                if want.is_nan() {
                    assert!(f64::from_bits(bits).is_nan());
                } else {
                    assert_eq!(bits, want.to_bits());
                }
            },
            other => panic!("unexpected: {:?}", other),
        };
        same(eval(&binary(lit_num(a), TokenType::Minus, lit_num(b))), a - b);
        same(eval(&binary(lit_num(a), TokenType::Star, lit_num(b))), a * b);
        same(eval(&binary(lit_num(a), TokenType::Slash, lit_num(b))), a / b);
        same(eval(&binary(lit_num(a), TokenType::Plus, lit_num(b))), a + b);
        same(eval(&unary(TokenType::Minus, lit_num(a))), -1.0 * a);
    }
}

#[test]
fn relations_on_numbers() {
    let cases: Vec<(f64, f64)> =
        vec![(1.0, 2.0), (2.0, 1.0), (1.0, 1.0), (0.0, -0.0), (f64::NAN, 1.0), (-3.0, 2.0)];
    for (a, b) in cases {
        let truth = |kind: TokenType| {
            eval(&binary(lit_num(a), kind, lit_num(b))).unwrap()
        };
        assert_eq!(truth(TokenType::Greater), LoxValue::Boolean(a > b));
        assert_eq!(truth(TokenType::GreaterEqual), LoxValue::Boolean(a >= b));
        assert_eq!(truth(TokenType::Less), LoxValue::Boolean(a < b));
        assert_eq!(truth(TokenType::LessEqual), LoxValue::Boolean(a <= b));
        assert_eq!(truth(TokenType::EqualEqual), LoxValue::Boolean(a == b));
        assert_eq!(truth(TokenType::BangEqual), LoxValue::Boolean(a != b));
    }
}

#[test]
fn numeric_operators_reject_anything_but_numbers() {
    for kind in NUMERIC {
        let others: Vec<fn() -> Box<Expr>> =
            vec![|| lit_str("a"), || lit_bool(true), || lit_nil()];
        for other in others {
            let token = Token::new(kind, 42);
            let left = Expr::Binary(other(), token.clone(), lit_num(1.0));
            let (at, message) = runtime_error(eval(&left));
            assert_eq!(at.kind, kind);
            assert_eq!(at.line, 42);
            assert_eq!(message, "operands must be two numbers");
            let right = Expr::Binary(lit_num(1.0), token.clone(), other());
            let (at, message) = runtime_error(eval(&right));
            assert_eq!(at.kind, kind);
            assert_eq!(message, "operands must be two numbers");
            let both = Expr::Binary(other(), token, other());
            let (_, message) = runtime_error(eval(&both));
            assert_eq!(message, "operands must be two numbers");
        }
    }
}

#[test]
fn one_plus_one() {
    assert_eq!(eval(&binary(lit_num(1.0), TokenType::Plus, lit_num(1.0))).unwrap(), num(2.0));
}

#[test]
fn plus_joins_strings() {
    assert_eq!(
        eval(&binary(lit_str("a"), TokenType::Plus, lit_str("b"))).unwrap(),
        text("ab")
    );
    assert_eq!(eval(&binary(lit_str(""), TokenType::Plus, lit_str(""))).unwrap(), text(""));
}

#[test]
fn plus_rejects_mixed_operands() {
    let token = Token::new(TokenType::Plus, 9);
    let expr = Expr::Binary(lit_num(1.0), token.clone(), lit_str("a"));
    let (at, message) = runtime_error(eval(&expr));
    assert_eq!(at.kind, TokenType::Plus);
    assert_eq!(at.line, 9);
    assert_eq!(message, "+ needs either strings or numbers");
    let expr = Expr::Binary(lit_str("a"), token.clone(), lit_num(1.0));
    assert_eq!(runtime_error(eval(&expr)).1, "+ needs either strings or numbers");
    let expr = Expr::Binary(lit_nil(), token.clone(), lit_nil());
    assert_eq!(runtime_error(eval(&expr)).1, "+ needs either strings or numbers");
    let expr = Expr::Binary(lit_bool(true), token, lit_bool(false));
    assert_eq!(runtime_error(eval(&expr)).1, "+ needs either strings or numbers");
}

#[test]
fn bang_negates_truthiness() {
    assert_eq!(eval(&unary(TokenType::Bang, lit_nil())).unwrap(), LoxValue::Boolean(true));
    assert_eq!(eval(&unary(TokenType::Bang, lit_bool(false))).unwrap(), LoxValue::Boolean(true));
    assert_eq!(eval(&unary(TokenType::Bang, lit_bool(true))).unwrap(), LoxValue::Boolean(false));
    assert_eq!(eval(&unary(TokenType::Bang, lit_num(0.0))).unwrap(), LoxValue::Boolean(false));
    assert_eq!(eval(&unary(TokenType::Bang, lit_str(""))).unwrap(), LoxValue::Boolean(false));
}

#[test]
fn unary_minus_negates_a_number_and_rejects_the_rest() {
    assert_eq!(eval(&unary(TokenType::Minus, lit_num(3.0))).unwrap(), num(-3.0));
    assert_eq!(eval(&unary(TokenType::Minus, lit_num(0.0))).unwrap(), num(-0.0));
    match eval(&unary(TokenType::Minus, lit_num(0.0))).unwrap() {
        LoxValue::Number(bits) => assert_eq!(bits, (-0.0f64).to_bits()),
        other => panic!("unexpected: {:?}", other),
    }
    let expr = Expr::Unary(Token::new(TokenType::Minus, 5), lit_str("a"));
    let (at, message) = runtime_error(eval(&expr));
    assert_eq!(at.kind, TokenType::Minus);
    assert_eq!(at.line, 5);
    assert_eq!(message, "unary minus only applicable to numbers");
}

#[test]
fn equality_takes_any_operands() {
    let yes = LoxValue::Boolean(true);
    let no = LoxValue::Boolean(false);
    assert_eq!(eval(&binary(lit_num(1.0), TokenType::EqualEqual, lit_num(1.0))).unwrap(), yes);
    assert_eq!(eval(&binary(lit_str("a"), TokenType::EqualEqual, lit_num(1.0))).unwrap(), no);
    assert_eq!(eval(&binary(lit_str("a"), TokenType::BangEqual, lit_num(1.0))).unwrap(), yes);
    assert_eq!(eval(&binary(lit_nil(), TokenType::EqualEqual, lit_nil())).unwrap(), yes);
    assert_eq!(eval(&binary(lit_nil(), TokenType::EqualEqual, lit_bool(false))).unwrap(), no);
    assert_eq!(eval(&binary(lit_str("a"), TokenType::EqualEqual, lit_str("a"))).unwrap(), yes);
}

#[test]
fn grouping_is_transparent() {
    let grouped = Expr::Grouping(binary(lit_num(2.0), TokenType::Star, lit_num(3.0)));
    assert_eq!(eval(&grouped).unwrap(), num(6.0));
    // -123 * (45.67)
    let expr = binary(
        unary(TokenType::Minus, lit_num(123.0)),
        TokenType::Star,
        Box::new(Expr::Grouping(lit_num(45.67))),
    );
    assert_eq!(eval(&expr).unwrap(), num(-123.0 * 45.67));
}

#[test]
fn operators_applied_to_values() {
    let plus = op(TokenType::Plus);
    assert_eq!(apply_binary(&plus, num(1.0), num(1.0)).unwrap(), num(2.0));
    assert_eq!(apply_binary(&plus, text("a"), text("b")).unwrap(), text("ab"));
    assert!(apply_binary(&plus, num(1.0), text("a")).is_err());
    let f = LoxValue::new_callable("f".to_string(), 0);
    assert_eq!(
        apply_binary(&op(TokenType::EqualEqual), f.clone(), f.clone()).unwrap(),
        LoxValue::Boolean(false)
    );
    assert_eq!(
        apply_binary(&op(TokenType::BangEqual), f.clone(), f).unwrap(),
        LoxValue::Boolean(true)
    );
    assert_eq!(apply_unary(&op(TokenType::Bang), LoxValue::Nil).unwrap(), LoxValue::Boolean(true));
    assert_eq!(apply_unary(&op(TokenType::Minus), num(2.0)).unwrap(), num(-2.0));
    assert!(assert_two_numbers(&plus, &num(1.0), &num(2.0)).is_ok());
    let (at, message) = runtime_error(assert_two_numbers(&plus, &num(1.0), &LoxValue::Nil));
    assert_eq!(at.kind, TokenType::Plus);
    assert_eq!(message, "operands must be two numbers");
    assert!(assert_two_numbers(&plus, &text("a"), &text("b")).is_err());
}

#[test]
fn operators_are_told_from_other_tokens() {
    assert!(is_unary_operator(TokenType::Bang));
    assert!(is_unary_operator(TokenType::Minus));
    assert!(!is_unary_operator(TokenType::Plus));
    for kind in NUMERIC {
        assert!(is_binary_operator(kind));
    }
    assert!(is_binary_operator(TokenType::Plus));
    assert!(is_binary_operator(TokenType::EqualEqual));
    assert!(is_binary_operator(TokenType::BangEqual));
    assert!(!is_binary_operator(TokenType::Bang));
    assert!(!is_binary_operator(TokenType::And));
    assert!(binary(lit_num(1.0), TokenType::Plus, lit_num(1.0)).is_well_formed());
    assert!(!binary(lit_num(1.0), TokenType::Bang, lit_num(1.0)).is_well_formed());
    assert!(!unary(TokenType::Star, lit_num(1.0)).is_well_formed());
    let nested = Stmt::Block(vec![Stmt::While(
        lit_bool(false),
        Box::new(Stmt::Print(unary(TokenType::Comma, lit_nil()))),
    )]);
    assert!(!nested.is_well_formed());
    assert!(!are_well_formed(&vec![Stmt::Empty, nested]));
    assert!(are_well_formed(&vec![Stmt::Empty, Stmt::Print(lit_nil())]));
}

#[test]
fn shadowing_in_a_block() {
    // var x = 1; { var x = 2; print x; } print x;
    let program = vec![
        declare("x", lit_num(1.0)),
        Stmt::Block(vec![declare("x", lit_num(2.0)), Stmt::Print(var("x"))]),
        Stmt::Print(var("x")),
    ];
    let (result, output) = run(program);
    assert!(result.is_ok());
    assert_eq!(output, vec![num(2.0), num(1.0)]);
}

#[test]
fn assignment_is_an_expression() {
    // var x = 1; print x = 5; print x;
    let program = vec![
        declare("x", lit_num(1.0)),
        Stmt::Print(assign("x", lit_num(5.0))),
        Stmt::Print(var("x")),
    ];
    let (result, output) = run(program);
    assert!(result.is_ok());
    assert_eq!(output, vec![num(5.0), num(5.0)]);
}

#[test]
fn assignments_nest() {
    // var a = 0; var b = 0; a = b = 3; print a; print b;
    let program = vec![
        declare("a", lit_num(0.0)),
        declare("b", lit_num(0.0)),
        Stmt::Expression(assign("a", assign("b", lit_num(3.0)))),
        Stmt::Print(var("a")),
        Stmt::Print(var("b")),
    ];
    let (result, output) = run(program);
    assert!(result.is_ok());
    assert_eq!(output, vec![num(3.0), num(3.0)]);
}

#[test]
fn and_does_not_evaluate_its_right_operand_after_a_falsy_left() {
    // var calls = 0; print false and (calls = calls + 1); print calls;
    let side_effect = || assign("calls", binary(var("calls"), TokenType::Plus, lit_num(1.0)));
    let program = vec![
        declare("calls", lit_num(0.0)),
        Stmt::Print(logical(lit_bool(false), TokenType::And, side_effect())),
        Stmt::Print(logical(lit_nil(), TokenType::And, side_effect())),
        Stmt::Print(var("calls")),
        Stmt::Print(logical(lit_bool(true), TokenType::And, side_effect())),
        Stmt::Print(var("calls")),
    ];
    let (result, output) = run(program);
    assert!(result.is_ok());
    assert_eq!(
        output,
        vec![LoxValue::Boolean(false), LoxValue::Nil, num(0.0), num(1.0), num(1.0)]
    );
}

#[test]
fn or_does_not_evaluate_its_right_operand_after_a_truthy_left() {
    let side_effect = || assign("calls", binary(var("calls"), TokenType::Plus, lit_num(1.0)));
    let program = vec![
        declare("calls", lit_num(0.0)),
        Stmt::Print(logical(lit_bool(true), TokenType::Or, side_effect())),
        Stmt::Print(logical(lit_str("left"), TokenType::Or, side_effect())),
        Stmt::Print(var("calls")),
        Stmt::Print(logical(lit_bool(false), TokenType::Or, side_effect())),
        Stmt::Print(var("calls")),
    ];
    let (result, output) = run(program);
    assert!(result.is_ok());
    assert_eq!(
        output,
        vec![LoxValue::Boolean(true), text("left"), num(0.0), num(1.0), num(1.0)]
    );
}

#[test]
fn a_skipped_operand_is_not_even_looked_up() {
    // `undefined` is bound nowhere: evaluating it would fail
    assert_eq!(
        eval(&logical(lit_bool(false), TokenType::And, var("undefined"))).unwrap(),
        LoxValue::Boolean(false)
    );
    assert_eq!(
        eval(&logical(lit_num(1.0), TokenType::Or, var("undefined"))).unwrap(),
        num(1.0)
    );
    assert!(eval(&logical(lit_bool(true), TokenType::And, var("undefined"))).is_err());
    assert!(eval(&logical(lit_nil(), TokenType::Or, var("undefined"))).is_err());
}

#[test]
fn reading_an_undefined_variable_fails_with_its_token() {
    let expr = Expr::Variable(Token::identifier("ghost", 12));
    let (at, message) = runtime_error(eval(&expr));
    assert_eq!(at.kind, TokenType::Identifier);
    assert_eq!(at.lexeme, "ghost");
    assert_eq!(at.line, 12);
    assert_eq!(message, "undefined variable");
}

#[test]
fn assigning_an_undefined_variable_fails_with_its_token() {
    let expr = Expr::Assign(Token::identifier("ghost", 13), lit_num(1.0));
    let mut interpreter = Interpreter::new();
    let (at, message) = runtime_error(interpreter.eval_expr(&expr));
    assert_eq!(at.lexeme, "ghost");
    assert_eq!(at.line, 13);
    assert_eq!(message, "undefined variable");
    // the failed assignment has bound nothing
    assert!(interpreter.eval_expr(&var("ghost")).is_err());
    // declaring it first and retrying succeeds
    assert!(interpreter.interpret(vec![declare("ghost", lit_nil())]).is_ok());
    assert_eq!(interpreter.eval_expr(&expr).unwrap(), num(1.0));
    assert_eq!(interpreter.eval_expr(&var("ghost")).unwrap(), num(1.0));
}

#[test]
fn a_loop_whose_condition_is_false_runs_no_iteration() {
    // while (false) { print "never"; } print "after";
    let program = vec![
        Stmt::While(lit_bool(false), Box::new(Stmt::Block(vec![Stmt::Print(lit_str("never"))]))),
        Stmt::Print(lit_str("after")),
    ];
    let (result, output) = run(program);
    assert!(result.is_ok());
    assert_eq!(output, vec![text("after")]);
}

#[test]
fn a_loop_runs_while_its_condition_is_truthy() {
    // var i = 0; while (i < 3) { print i; i = i + 1; } print "done";
    let program = vec![
        declare("i", lit_num(0.0)),
        Stmt::While(
            binary(var("i"), TokenType::Less, lit_num(3.0)),
            Box::new(Stmt::Block(vec![
                Stmt::Print(var("i")),
                Stmt::Expression(assign("i", binary(var("i"), TokenType::Plus, lit_num(1.0)))),
            ])),
        ),
        Stmt::Print(lit_str("done")),
    ];
    let (result, output) = run(program);
    assert!(result.is_ok());
    assert_eq!(output, vec![num(0.0), num(1.0), num(2.0), text("done")]);
}

#[test]
fn nested_loops() {
    // var i = 0; var n = 0;
    // while (i < 3) { var j = 0; while (j < 4) { n = n + 1; j = j + 1; } i = i + 1; }
    // print n;
    let inner = Stmt::While(
        binary(var("j"), TokenType::Less, lit_num(4.0)),
        Box::new(Stmt::Block(vec![
            Stmt::Expression(assign("n", binary(var("n"), TokenType::Plus, lit_num(1.0)))),
            Stmt::Expression(assign("j", binary(var("j"), TokenType::Plus, lit_num(1.0)))),
        ])),
    );
    let program = vec![
        declare("i", lit_num(0.0)),
        declare("n", lit_num(0.0)),
        Stmt::While(
            binary(var("i"), TokenType::Less, lit_num(3.0)),
            Box::new(Stmt::Block(vec![
                declare("j", lit_num(0.0)),
                inner,
                Stmt::Expression(assign("i", binary(var("i"), TokenType::Plus, lit_num(1.0)))),
            ])),
        ),
        Stmt::Print(var("n")),
    ];
    let (result, output) = run(program);
    assert!(result.is_ok());
    assert_eq!(output, vec![num(12.0)]);
}

#[test]
fn a_conditional_takes_one_branch() {
    let program = vec![
        Stmt::If(
            lit_num(0.0),
            Box::new(Stmt::Print(lit_str("then"))),
            Box::new(Stmt::Print(lit_str("else"))),
        ),
        Stmt::If(
            lit_nil(),
            Box::new(Stmt::Print(lit_str("then"))),
            Box::new(Stmt::Print(lit_str("else"))),
        ),
        Stmt::If(lit_bool(false), Box::new(Stmt::Print(lit_str("then"))), Box::new(Stmt::Empty)),
    ];
    let (result, output) = run(program);
    assert!(result.is_ok());
    assert_eq!(output, vec![text("then"), text("else")]);
}

#[test]
fn the_empty_statement_and_the_expression_statement_print_nothing() {
    let program =
        vec![Stmt::Empty, Stmt::Expression(binary(lit_num(1.0), TokenType::Plus, lit_num(2.0)))];
    let (result, output) = run(program);
    assert!(result.is_ok());
    assert!(output.is_empty());
    let (result, output) = run(vec![]);
    assert!(result.is_ok());
    assert!(output.is_empty());
}

#[test]
fn redeclaring_in_the_same_scope_overwrites() {
    let program = vec![
        declare("x", lit_num(1.0)),
        declare("x", lit_str("again")),
        Stmt::Print(var("x")),
    ];
    let (result, output) = run(program);
    assert!(result.is_ok());
    assert_eq!(output, vec![text("again")]);
}

#[test]
fn a_block_assigns_to_an_outer_variable() {
    // var x = 1; { x = 2; var y = 3; } print x; print y;
    let program = vec![
        declare("x", lit_num(1.0)),
        Stmt::Block(vec![Stmt::Expression(assign("x", lit_num(2.0))), declare("y", lit_num(3.0))]),
        Stmt::Print(var("x")),
        Stmt::Print(var("y")),
    ];
    let (result, output) = run(program);
    let (at, message) = runtime_error(result);
    assert_eq!(at.lexeme, "y");
    assert_eq!(message, "undefined variable");
    assert_eq!(output, vec![num(2.0)]);
}

#[test]
fn the_first_error_ends_the_run() {
    // print 1; print 1 - "a"; print 2;
    let program = vec![
        Stmt::Print(lit_num(1.0)),
        Stmt::Print(Box::new(Expr::Binary(
            lit_num(1.0),
            Token::new(TokenType::Minus, 2),
            lit_str("a"),
        ))),
        Stmt::Print(lit_num(2.0)),
    ];
    let (result, output) = run(program);
    let (at, message) = runtime_error(result);
    assert_eq!(at.kind, TokenType::Minus);
    assert_eq!(at.line, 2);
    assert_eq!(message, "operands must be two numbers");
    assert_eq!(output, vec![num(1.0)]);
}

#[test]
fn the_left_operand_is_evaluated_first_and_its_failure_wins() {
    let expr = binary(var("left"), TokenType::Plus, var("right"));
    let (at, _) = runtime_error(eval(&expr));
    assert_eq!(at.lexeme, "left");
    // effects of the left operand stay when the right one fails
    let mut interpreter = Interpreter::new();
    assert!(interpreter.interpret(vec![declare("x", lit_num(1.0))]).is_ok());
    let expr = binary(assign("x", lit_num(2.0)), TokenType::Plus, var("right"));
    let (at, _) = runtime_error(interpreter.eval_expr(&expr));
    assert_eq!(at.lexeme, "right");
    assert_eq!(interpreter.eval_expr(&var("x")).unwrap(), num(2.0));
}

#[test]
fn a_block_that_fails_leaves_its_scope_open() {
    // { var inner = 1; print missing; }
    let mut interpreter = Interpreter::new();
    let program =
        vec![Stmt::Block(vec![declare("inner", lit_num(1.0)), Stmt::Print(var("missing"))])];
    let (at, _) = runtime_error(interpreter.interpret(program));
    assert_eq!(at.lexeme, "missing");
    // the scope was not closed: its variable is still visible
    assert_eq!(interpreter.eval_expr(&var("inner")).unwrap(), num(1.0));
}

#[test]
fn a_block_that_completes_closes_its_scope() {
    let mut interpreter = Interpreter::new();
    let program = vec![Stmt::Block(vec![declare("inner", lit_num(1.0))])];
    assert!(interpreter.interpret(program).is_ok());
    assert!(interpreter.eval_expr(&var("inner")).is_err());
}

#[test]
fn state_lives_across_runs_and_output_is_handed_over_once() {
    let mut interpreter = Interpreter::new();
    assert!(interpreter.interpret(vec![declare("x", lit_num(1.0)), Stmt::Print(var("x"))]).is_ok());
    assert_eq!(interpreter.output(), &vec![num(1.0)]);
    let more = vec![Stmt::Print(binary(var("x"), TokenType::Plus, lit_num(1.0)))];
    assert!(interpreter.interpret(more).is_ok());
    assert_eq!(interpreter.output(), &vec![num(1.0), num(2.0)]);
    assert_eq!(interpreter.take_output(), vec![num(1.0), num(2.0)]);
    assert!(interpreter.output().is_empty());
    assert!(interpreter.take_output().is_empty());
}

#[test]
fn any_token_but_or_makes_a_logical_expression_an_and() {
    assert_eq!(
        eval(&logical(lit_bool(false), TokenType::And, lit_num(1.0))).unwrap(),
        LoxValue::Boolean(false)
    );
    assert_eq!(eval(&logical(lit_bool(true), TokenType::And, lit_num(1.0))).unwrap(), num(1.0));
    assert_eq!(eval(&logical(lit_bool(false), TokenType::Or, lit_num(1.0))).unwrap(), num(1.0));
}

#[test]
fn tokens_are_made_and_copied() {
    let minus = Token::new(TokenType::Minus, 7);
    assert_eq!(minus.kind, TokenType::Minus);
    assert_eq!(minus.lexeme, "");
    assert_eq!(minus.line, 7);
    assert!(minus.kind_matches(&TokenType::Minus));
    assert!(!minus.kind_matches(&TokenType::Or));
    let name = Token::identifier("x", 2);
    let copy = name.clone();
    assert_eq!(copy.kind, TokenType::Identifier);
    assert_eq!(copy.lexeme, "x");
    assert_eq!(copy.line, 2);
}

#[test]
fn a_limited_run_says_whether_it_finished() {
    // var i = 0; while (i < 3) { i = i + 1; } print i;
    let program = || {
        vec![
            declare("i", lit_num(0.0)),
            Stmt::While(
                binary(var("i"), TokenType::Less, lit_num(3.0)),
                Box::new(Stmt::Expression(assign(
                    "i",
                    binary(var("i"), TokenType::Plus, lit_num(1.0)),
                ))),
            ),
            Stmt::Print(var("i")),
        ]
    };
    let mut enough = Interpreter::new();
    assert_eq!(enough.interpret_within(program(), 3).unwrap(), true);
    assert_eq!(enough.take_output(), vec![num(3.0)]);
    let mut short = Interpreter::new();
    assert_eq!(short.interpret_within(program(), 2).unwrap(), false);
    assert!(short.take_output().is_empty());
    let mut none = Interpreter::new();
    assert_eq!(none.interpret_within(program(), 0).unwrap(), false);
}

#[test]
fn a_limited_run_ends_a_loop_that_would_not_end() {
    // while (true) print "again";
    let program = vec![Stmt::While(lit_bool(true), Box::new(Stmt::Print(lit_str("again"))))];
    let mut interpreter = Interpreter::new();
    assert_eq!(interpreter.interpret_within(program, 5).unwrap(), false);
    assert_eq!(interpreter.take_output().len(), 5);
}

#[test]
fn a_limited_run_without_loops_needs_no_fuel() {
    let program = vec![declare("x", lit_num(1.0)), Stmt::Print(var("x"))];
    let mut interpreter = Interpreter::new();
    assert_eq!(interpreter.interpret_within(program, 0).unwrap(), true);
    assert_eq!(interpreter.take_output(), vec![num(1.0)]);
    let failing = vec![Stmt::Print(var("missing"))];
    let (at, _) = runtime_error(interpreter.interpret_within(failing, 0));
    assert_eq!(at.lexeme, "missing");
}
