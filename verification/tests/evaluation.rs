use calculator::ast::{Expr, Opcode};
use calculator::environment::Environment;
use calculator::grammar::SyntaxErrorKind;
use calculator::literal::Literal;
use calculator::machine::{evaluate, function_of, Progress};
use calculator::parser::parse;
use calculator::semantics::{Function, Request, RuntimeError};
use calculator::value::Value;

fn number(value: Value) -> f64 {
    f64::from_bits(value.bits)
}

fn value(x: f64) -> Value {
    Value { bits: x.to_bits() }
}

fn compute(request: Request) -> Value {
    value(match request {
        Request::Literal(literal) => literal.as_str().parse::<f64>().expect("a number"),
        Request::Binary(op, left, right) => {
            let (l, r) = (number(left), number(right));
            match op {
                Opcode::Add => l + r,
                Opcode::Sub => l - r,
                Opcode::Mul => l * r,
                Opcode::Div => l / r,
                Opcode::Mod => l % r,
                Opcode::Pow => l.powf(r),
            }
        }
        Request::Call(function, argument) => {
            let x = number(argument);
            match function {
                Function::Sin => x.sin(),
                Function::Cos => x.cos(),
                Function::Sqrt => x.sqrt(),
                Function::Ln => x.ln(),
            }
        }
        Request::Integer(n) => n as f64,
    })
}

fn reduce(tree: Expr, env: &mut Environment) -> Result<f64, RuntimeError> {
    let mut progress = evaluate(tree, env);
    loop {
        match progress {
            Progress::Finished(result) => return result.map(number),
            Progress::Suspended(request, evaluation) => {
                progress = evaluation.resume(env, compute(request));
            }
        }
    }
}

fn run(line: &str, env: &mut Environment) -> Result<f64, RuntimeError> {
    reduce(parse(line).expect("a statement"), env)
}

fn eval(line: &str) -> Result<f64, RuntimeError> {
    run(line, &mut Environment::new_with_defaults())
}

#[test]
fn literal_evaluates_to_its_number() {
    let numbers = [
        0.0,
        1.0,
        2.5,
        0.1,
        3.141592653589793,
        1e21,
        123456789.125,
        5e-324,
        1.7976931348623157e308,
        0.30000000000000004,
        4503599627370497.0,
    ];
    for n in numbers {
        let text = format!("{}", n);
        assert_eq!(eval(&text), Ok(n), "{text}");
    }
    assert_eq!(eval("007"), Ok(7.0));
    assert_eq!(eval("1.50"), Ok(1.5));
}

#[test]
fn literal_leaves_the_bindings_alone() {
    let mut env = Environment::new_with_defaults();
    assert_eq!(run("12.5", &mut env), Ok(12.5));
    assert_eq!(run("pi", &mut env), Ok(std::f64::consts::PI));
    assert_eq!(
        run("x", &mut env),
        Err(RuntimeError::UndeclaredVariable("x".to_string()))
    );
}

#[test]
fn precedence_decides_the_value() {
    assert_eq!(eval("2 + 3 * 4"), Ok(14.0));
    assert_eq!(eval("(2 + 3) * 4"), Ok(20.0));
    assert_eq!(eval("2 ^ 3 ^ 2"), Ok(512.0));
    assert_eq!(eval("10 - 4 - 3"), Ok(3.0));
    assert_eq!(eval("100 / 10 / 5"), Ok(2.0));
    assert_eq!(eval("2 * 3 ^ 2"), Ok(18.0));
    assert_eq!(eval("-2 ^ 2"), Ok(4.0));
    assert_eq!(eval("2 ^ -1"), Ok(0.5));
}

#[test]
fn factorial_binds_tighter_than_negation() {
    assert_eq!(eval("-5!"), Ok(-120.0));
    assert_eq!(eval("3!"), Ok(6.0));
    assert_eq!(eval("0!"), Ok(1.0));
    assert_eq!(eval("3!!"), Ok(720.0));
    assert_eq!(eval("20!"), Ok(2432902008176640000.0));
    assert_eq!(eval("(2 + 2)!"), Ok(24.0));
}

#[test]
fn factorial_wraps_on_sixty_four_bits() {
    assert_eq!(eval("21!"), Ok(14197454024290336768u64 as f64));
    assert_eq!(eval("66!"), Ok(0.0));
    assert_eq!(eval("100000000000000000000!"), Ok(0.0));
}

#[test]
fn factorial_of_negative_zero_is_one() {
    assert_eq!(eval("(0 * -1)!"), Ok(1.0));
}

#[test]
fn assignment_persists_and_returns_its_value() {
    let mut env = Environment::new_with_defaults();
    assert_eq!(run("x = 5", &mut env), Ok(5.0));
    assert_eq!(run("x + 1", &mut env), Ok(6.0));
    assert_eq!(env.get(&"x".to_string()), Some(value(5.0)));
    assert_eq!(run("x = x * 2", &mut env), Ok(10.0));
    assert_eq!(run("x", &mut env), Ok(10.0));
}

#[test]
fn chained_assignment_binds_every_name() {
    let mut env = Environment::new_with_defaults();
    assert_eq!(run("a = b = 3", &mut env), Ok(3.0));
    assert_eq!(run("a + b", &mut env), Ok(6.0));
}

#[test]
fn constants_are_bound_from_the_start() {
    assert_eq!(eval("pi"), Ok(std::f64::consts::PI));
    assert_eq!(eval("π"), Ok(std::f64::consts::PI));
    assert_eq!(eval("e"), Ok(std::f64::consts::E));
    assert_eq!(eval("2 * π"), Ok(2.0 * std::f64::consts::PI));
}

#[test]
fn constants_can_be_rebound() {
    let mut env = Environment::new_with_defaults();
    assert_eq!(run("pi = 3", &mut env), Ok(3.0));
    assert_eq!(run("pi", &mut env), Ok(3.0));
    assert_eq!(run("π", &mut env), Ok(std::f64::consts::PI));
}

#[test]
fn division_by_zero_fails() {
    assert_eq!(eval("1 / 0"), Err(RuntimeError::DivisionByZero));
    assert_eq!(eval("0 / 0"), Err(RuntimeError::DivisionByZero));
    assert_eq!(eval("1 / (0 * -1)"), Err(RuntimeError::DivisionByZero));
    assert_eq!(eval("1 / 0.0"), Err(RuntimeError::DivisionByZero));
    assert_eq!(eval("1 / 0.5"), Ok(2.0));
}

#[test]
fn remainder_and_power_have_no_guard() {
    assert_eq!(eval("7 % 3"), Ok(1.0));
    assert_eq!(eval("-7 % 3"), Ok(-1.0));
    assert_eq!(eval("7.5 % 2"), Ok(1.5));
    assert!(eval("1 % 0").expect("a number").is_nan());
    assert!(eval("(0 - 8) ^ 0.5").expect("a number").is_nan());
    assert_eq!(eval("0 ^ -1"), Ok(f64::INFINITY));
    assert_eq!(eval("4 ^ 0.5"), Ok(2.0));
}

#[test]
fn square_root_of_negative_fails() {
    assert_eq!(eval("sqrt(-4)"), Err(RuntimeError::NegativeSqrt));
    assert_eq!(eval("sqrt(4)"), Ok(2.0));
    assert_eq!(eval("sqrt(0)"), Ok(0.0));
    assert_eq!(eval("sqrt(0 * -1)").map(f64::to_bits), Ok((-0.0f64).to_bits()));
    assert!(eval("sqrt(1 % 0)").expect("a number").is_nan());
}

#[test]
fn logarithm_of_non_positive_fails() {
    assert_eq!(eval("ln(0)"), Err(RuntimeError::NonPositiveLog));
    assert_eq!(eval("ln(0 * -1)"), Err(RuntimeError::NonPositiveLog));
    assert_eq!(eval("ln(-1)"), Err(RuntimeError::NonPositiveLog));
    assert_eq!(eval("ln(1)"), Ok(0.0));
    assert_eq!(eval("ln(e)"), Ok(1.0));
    assert!(eval("ln(1 % 0)").expect("a number").is_nan());
}

#[test]
fn trigonometric_functions_take_radians() {
    assert_eq!(eval("sin(0)"), Ok(0.0));
    assert_eq!(eval("cos(0)"), Ok(1.0));
    assert_eq!(eval("cos(pi)"), Ok(-1.0));
    assert_eq!(eval("sin(pi / 2)"), Ok(1.0));
    assert_eq!(eval("sin(1)"), Ok(1.0f64.sin()));
}

#[test]
fn fractional_or_negative_factorial_fails() {
    assert_eq!(eval("2.5!"), Err(RuntimeError::InvalidFactorial));
    assert_eq!(eval("(-3)!"), Err(RuntimeError::InvalidFactorial));
    assert_eq!(eval("(0 - 1)!"), Err(RuntimeError::InvalidFactorial));
    assert_eq!(eval("(1 % 0)!"), Err(RuntimeError::InvalidFactorial));
    assert_eq!(eval("(10 ^ 400)!"), Err(RuntimeError::InvalidFactorial));
}

#[test]
fn unbound_name_fails() {
    assert_eq!(eval("y"), Err(RuntimeError::UndeclaredVariable("y".to_string())));
    assert_eq!(
        eval("1 + Pi"),
        Err(RuntimeError::UndeclaredVariable("Pi".to_string()))
    );
}

#[test]
fn unknown_function_fails() {
    assert_eq!(eval("tan(1)"), Err(RuntimeError::UnknownFunction("tan".to_string())));
    assert_eq!(eval("Sin(1)"), Err(RuntimeError::UnknownFunction("Sin".to_string())));
    assert_eq!(eval("pi(1)"), Err(RuntimeError::UnknownFunction("pi".to_string())));
}

#[test]
fn argument_is_evaluated_before_the_function_is_looked_up() {
    assert_eq!(
        eval("tan(y)"),
        Err(RuntimeError::UndeclaredVariable("y".to_string()))
    );
    let mut env = Environment::new_with_defaults();
    assert_eq!(
        run("tan(x = 2)", &mut env),
        Err(RuntimeError::UnknownFunction("tan".to_string()))
    );
    assert_eq!(run("x", &mut env), Ok(2.0));
}

#[test]
fn function_names_are_the_four() {
    assert_eq!(function_of(&"sin".to_string()), Some(Function::Sin));
    assert_eq!(function_of(&"cos".to_string()), Some(Function::Cos));
    assert_eq!(function_of(&"sqrt".to_string()), Some(Function::Sqrt));
    assert_eq!(function_of(&"ln".to_string()), Some(Function::Ln));
    assert_eq!(function_of(&"log".to_string()), None);
    assert_eq!(function_of(&"".to_string()), None);
}

#[test]
fn syntax_error_comes_from_the_parser() {
    let error = parse("2 +").expect_err("no statement");
    assert_eq!(error.kind, SyntaxErrorKind::UnexpectedEnd);
    assert_eq!(error.position, 3);
}

#[test]
fn names_may_be_greek() {
    let mut env = Environment::new_with_defaults();
    assert_eq!(run("Δ = 3", &mut env), Ok(3.0));
    assert_eq!(run("Δ * 2", &mut env), Ok(6.0));
}

#[test]
fn left_operand_is_evaluated_first() {
    let mut env = Environment::new_with_defaults();
    assert_eq!(run("(x = 1) + (x = 2) * x", &mut env), Ok(5.0));
    assert_eq!(run("x", &mut env), Ok(2.0));
    assert_eq!(run("(y = 10) - y / 2", &mut env), Ok(5.0));
}

#[test]
fn failed_assignment_binds_nothing() {
    let mut env = Environment::new_with_defaults();
    assert_eq!(run("x = 5 / 0", &mut env), Err(RuntimeError::DivisionByZero));
    assert_eq!(env.get(&"x".to_string()), None);
}

#[test]
fn bindings_made_before_a_failure_stay() {
    let mut env = Environment::new_with_defaults();
    assert_eq!(run("(y = 1) / 0", &mut env), Err(RuntimeError::DivisionByZero));
    assert_eq!(run("y", &mut env), Ok(1.0));
    assert_eq!(
        run("(z = 2) + unknown + (w = 3)", &mut env),
        Err(RuntimeError::UndeclaredVariable("unknown".to_string()))
    );
    assert_eq!(run("z", &mut env), Ok(2.0));
    assert_eq!(env.get(&"w".to_string()), None);
}

#[test]
fn first_failure_from_the_left_wins() {
    assert_eq!(
        eval("a + 1 / 0"),
        Err(RuntimeError::UndeclaredVariable("a".to_string()))
    );
    assert_eq!(eval("1 / 0 + a"), Err(RuntimeError::DivisionByZero));
    assert_eq!(eval("sqrt(-1) + ln(0)"), Err(RuntimeError::NegativeSqrt));
}

#[test]
fn variable_needs_no_computation() {
    let mut env = Environment::new_with_defaults();
    match evaluate(Expr::Var("e".to_string()), &mut env) {
        Progress::Finished(result) => assert_eq!(result, Ok(value(std::f64::consts::E))),
        Progress::Suspended(..) => panic!("nothing to compute"),
    }
}

#[test]
fn requests_come_in_the_order_of_evaluation() {
    let mut env = Environment::new_with_defaults();
    let tree = Expr::Op(
        Box::new(Expr::Number(Literal::new("1.5").expect("a literal"))),
        Opcode::Sub,
        Box::new(Expr::Var("e".to_string())),
    );
    let evaluation = match evaluate(tree, &mut env) {
        Progress::Suspended(request, evaluation) => {
            assert_eq!(request, Request::Literal(Literal::new("1.5").expect("a literal")));
            evaluation
        }
        Progress::Finished(_) => panic!("a literal to convert"),
    };
    let evaluation = match evaluation.resume(&mut env, value(1.5)) {
        Progress::Suspended(request, evaluation) => {
            assert_eq!(
                request,
                Request::Binary(Opcode::Sub, value(1.5), value(std::f64::consts::E))
            );
            evaluation
        }
        Progress::Finished(_) => panic!("a difference to compute"),
    };
    match evaluation.resume(&mut env, value(42.0)) {
        Progress::Finished(result) => assert_eq!(result, Ok(value(42.0))),
        Progress::Suspended(..) => panic!("nothing to compute"),
    }
}

#[test]
fn negation_is_done_without_a_request() {
    let mut env = Environment::new_with_defaults();
    let tree = Expr::Neg(Box::new(Expr::Var("pi".to_string())));
    match evaluate(tree, &mut env) {
        Progress::Finished(result) => {
            assert_eq!(result, Ok(value(-std::f64::consts::PI)))
        }
        Progress::Suspended(..) => panic!("nothing to compute"),
    }
}

#[test]
fn factorial_requests_the_product() {
    let mut env = Environment::new_with_defaults();
    env.insert("n".to_string(), value(5.0));
    let tree = Expr::Factorial(Box::new(Expr::Var("n".to_string())));
    match evaluate(tree, &mut env) {
        Progress::Suspended(request, _) => assert_eq!(request, Request::Integer(120)),
        Progress::Finished(_) => panic!("a product to convert"),
    }
}

#[test]
fn deep_trees_need_no_deep_stack() {
    let mut tree = Expr::Var("e".to_string());
    for _ in 0..100_000 {
        tree = Expr::Neg(Box::new(tree));
    }
    let mut env = Environment::new_with_defaults();
    let flat = match evaluate(tree, &mut env) {
        Progress::Finished(result) => result,
        Progress::Suspended(..) => panic!("nothing to compute"),
    };
    assert_eq!(flat, Ok(value(std::f64::consts::E)));
}
