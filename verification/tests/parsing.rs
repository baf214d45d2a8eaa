use calculator::ast::{Expr, Opcode};
use calculator::grammar::{SyntaxError, SyntaxErrorKind};
use calculator::literal::Literal;
use calculator::parser::parse;

fn num(text: &str) -> Expr {
    Expr::Number(Literal::new(text).expect("a literal"))
}

fn var(name: &str) -> Expr {
    Expr::Var(name.to_string())
}

fn op(left: Expr, opcode: Opcode, right: Expr) -> Expr {
    Expr::Op(Box::new(left), opcode, Box::new(right))
}

fn neg(operand: Expr) -> Expr {
    Expr::Neg(Box::new(operand))
}

fn fact(operand: Expr) -> Expr {
    Expr::Factorial(Box::new(operand))
}

fn assign(name: &str, value: Expr) -> Expr {
    Expr::Assign(name.to_string(), Box::new(value))
}

fn call(name: &str, argument: Expr) -> Expr {
    Expr::Call(name.to_string(), Box::new(argument))
}

fn error(kind: SyntaxErrorKind, position: usize) -> Result<Expr, SyntaxError> {
    Err(SyntaxError { kind, position })
}

#[test]
fn literal_parses_to_itself() {
    assert_eq!(parse("42"), Ok(num("42")));
    assert_eq!(parse("3.14"), Ok(num("3.14")));
    assert_eq!(parse("  007.500  "), Ok(num("007.500")));
    assert_eq!(
        parse("123456789012345678901234567890.5"),
        Ok(num("123456789012345678901234567890.5"))
    );
}

#[test]
fn identifier_parses_to_variable() {
    assert_eq!(parse("x"), Ok(var("x")));
    assert_eq!(parse("rate2"), Ok(var("rate2")));
    assert_eq!(parse("π"), Ok(var("π")));
    assert_eq!(parse("Δx1"), Ok(var("Δx1")));
    assert_eq!(parse("größe"), Ok(var("größe")));
}

#[test]
fn multiplication_binds_tighter_than_addition() {
    assert_eq!(
        parse("2 + 3 * 4"),
        Ok(op(num("2"), Opcode::Add, op(num("3"), Opcode::Mul, num("4"))))
    );
    assert_eq!(
        parse("2 * 3 + 4"),
        Ok(op(op(num("2"), Opcode::Mul, num("3")), Opcode::Add, num("4")))
    );
}

#[test]
fn parentheses_override_precedence() {
    assert_eq!(
        parse("(2 + 3) * 4"),
        Ok(op(op(num("2"), Opcode::Add, num("3")), Opcode::Mul, num("4")))
    );
    assert_eq!(parse("((7))"), Ok(num("7")));
}

#[test]
fn additive_operators_associate_to_the_left() {
    assert_eq!(
        parse("1 - 2 + 3"),
        Ok(op(op(num("1"), Opcode::Sub, num("2")), Opcode::Add, num("3")))
    );
    assert_eq!(
        parse("1-2-3"),
        Ok(op(op(num("1"), Opcode::Sub, num("2")), Opcode::Sub, num("3")))
    );
}

#[test]
fn multiplicative_operators_associate_to_the_left() {
    assert_eq!(
        parse("8 / 4 % 3 * 2"),
        Ok(op(
            op(op(num("8"), Opcode::Div, num("4")), Opcode::Mod, num("3")),
            Opcode::Mul,
            num("2")
        ))
    );
}

#[test]
fn power_associates_to_the_right() {
    assert_eq!(
        parse("2 ^ 3 ^ 2"),
        Ok(op(num("2"), Opcode::Pow, op(num("3"), Opcode::Pow, num("2"))))
    );
}

#[test]
fn power_binds_tighter_than_multiplication() {
    assert_eq!(
        parse("2 * 3 ^ 2"),
        Ok(op(num("2"), Opcode::Mul, op(num("3"), Opcode::Pow, num("2"))))
    );
}

#[test]
fn unary_minus_binds_tighter_than_power() {
    assert_eq!(parse("-2 ^ 2"), Ok(op(neg(num("2")), Opcode::Pow, num("2"))));
    assert_eq!(parse("2 ^ -3"), Ok(op(num("2"), Opcode::Pow, neg(num("3")))));
    assert_eq!(parse("--x"), Ok(neg(neg(var("x")))));
}

#[test]
fn factorial_binds_tighter_than_unary_minus() {
    assert_eq!(parse("-5!"), Ok(neg(fact(num("5")))));
    assert_eq!(parse("3!"), Ok(fact(num("3"))));
    assert_eq!(parse("3!!"), Ok(fact(fact(num("3")))));
    assert_eq!(parse("(1 + 2)!"), Ok(fact(op(num("1"), Opcode::Add, num("2")))));
    assert_eq!(
        parse("2 ^ 3!"),
        Ok(op(num("2"), Opcode::Pow, fact(num("3"))))
    );
}

#[test]
fn binary_minus_is_told_from_unary_minus() {
    assert_eq!(parse("1 - -2"), Ok(op(num("1"), Opcode::Sub, neg(num("2")))));
    assert_eq!(parse("1 * -2"), Ok(op(num("1"), Opcode::Mul, neg(num("2")))));
}

#[test]
fn assignment_has_the_lowest_precedence() {
    assert_eq!(
        parse("x = 1 + 2"),
        Ok(assign("x", op(num("1"), Opcode::Add, num("2"))))
    );
}

#[test]
fn assignment_associates_to_the_right() {
    assert_eq!(parse("x = y = 3"), Ok(assign("x", assign("y", num("3")))));
}

#[test]
fn assignment_may_stand_between_parentheses() {
    assert_eq!(
        parse("(x = 5) + 1"),
        Ok(op(assign("x", num("5")), Opcode::Add, num("1")))
    );
}

#[test]
fn identifier_before_parenthesis_is_a_call() {
    assert_eq!(parse("sin(x)"), Ok(call("sin", var("x"))));
    assert_eq!(parse("f (1 + 2)"), Ok(call("f", op(num("1"), Opcode::Add, num("2")))));
    assert_eq!(
        parse("sqrt(ln(e))!"),
        Ok(fact(call("sqrt", call("ln", var("e")))))
    );
}

#[test]
fn spaces_separate_tokens_and_are_ignored() {
    assert_eq!(parse("\t1+\u{a0}2\u{3000}"), Ok(op(num("1"), Opcode::Add, num("2"))));
    assert_eq!(parse("a b"), error(SyntaxErrorKind::UnexpectedToken, 2));
}

#[test]
fn missing_operand_is_an_error() {
    assert_eq!(parse("2 +"), error(SyntaxErrorKind::UnexpectedEnd, 3));
    assert_eq!(parse("2 + * 3"), error(SyntaxErrorKind::UnexpectedToken, 4));
    assert_eq!(parse("-"), error(SyntaxErrorKind::UnexpectedEnd, 1));
    assert_eq!(parse("x ="), error(SyntaxErrorKind::UnexpectedEnd, 3));
    assert_eq!(parse("2 ^"), error(SyntaxErrorKind::UnexpectedEnd, 3));
}

#[test]
fn empty_line_is_an_error() {
    assert_eq!(parse(""), error(SyntaxErrorKind::UnexpectedEnd, 0));
    assert_eq!(parse("   "), error(SyntaxErrorKind::UnexpectedEnd, 3));
}

#[test]
fn unmatched_parenthesis_is_an_error() {
    assert_eq!(parse("(2 + 3"), error(SyntaxErrorKind::UnexpectedEnd, 6));
    assert_eq!(parse("2 + 3)"), error(SyntaxErrorKind::UnexpectedToken, 5));
    assert_eq!(parse("sin(1"), error(SyntaxErrorKind::UnexpectedEnd, 5));
    assert_eq!(parse("()"), error(SyntaxErrorKind::UnexpectedToken, 1));
    assert_eq!(parse("(1 2)"), error(SyntaxErrorKind::UnexpectedToken, 3));
}

#[test]
fn only_a_name_may_be_assigned_to() {
    assert_eq!(parse("2 = 3"), error(SyntaxErrorKind::UnexpectedToken, 2));
    assert_eq!(parse("x + y = 3"), error(SyntaxErrorKind::UnexpectedToken, 6));
    assert_eq!(parse("(x) = 3"), error(SyntaxErrorKind::UnexpectedToken, 4));
    assert_eq!(parse("= 3"), error(SyntaxErrorKind::UnexpectedToken, 0));
}

#[test]
fn adjacent_operands_are_an_error() {
    assert_eq!(parse("2 3"), error(SyntaxErrorKind::UnexpectedToken, 2));
    assert_eq!(parse("3x"), error(SyntaxErrorKind::UnexpectedToken, 1));
    assert_eq!(parse("2 (3)"), error(SyntaxErrorKind::UnexpectedToken, 2));
    assert_eq!(parse("!3"), error(SyntaxErrorKind::UnexpectedToken, 0));
}

#[test]
fn character_outside_the_language_is_an_error() {
    assert_eq!(parse("2 $ 3"), error(SyntaxErrorKind::InvalidCharacter, 2));
    assert_eq!(parse("a_b"), error(SyntaxErrorKind::InvalidCharacter, 1));
    assert_eq!(parse("💝"), error(SyntaxErrorKind::InvalidCharacter, 0));
    assert_eq!(parse("π + 💝"), error(SyntaxErrorKind::InvalidCharacter, 4));
}

#[test]
fn point_needs_digits_on_both_sides() {
    assert_eq!(parse("5."), error(SyntaxErrorKind::InvalidCharacter, 1));
    assert_eq!(parse(".5"), error(SyntaxErrorKind::InvalidCharacter, 0));
    assert_eq!(parse("1.2.3"), error(SyntaxErrorKind::InvalidCharacter, 3));
    assert_eq!(parse("1e5"), error(SyntaxErrorKind::UnexpectedToken, 1));
}

#[test]
fn first_error_from_the_left_wins() {
    assert_eq!(parse("2 + + $"), error(SyntaxErrorKind::UnexpectedToken, 4));
    assert_eq!(parse("$ + +"), error(SyntaxErrorKind::InvalidCharacter, 0));
}

#[test]
fn literal_accepts_only_decimal_notation() {
    assert!(Literal::new("0").is_some());
    assert!(Literal::new("10.25").is_some());
    assert_eq!(Literal::new("10.25").expect("a literal").as_str(), "10.25");
    assert!(Literal::new("").is_none());
    assert!(Literal::new(".").is_none());
    assert!(Literal::new("1.").is_none());
    assert!(Literal::new(".1").is_none());
    assert!(Literal::new("1.2.3").is_none());
    assert!(Literal::new("-1").is_none());
    assert!(Literal::new("1e3").is_none());
    assert!(Literal::new(" 1").is_none());
    assert!(Literal::new("١٢").is_none());
}

#[test]
fn cloned_tree_equals_its_source() {
    let tree = parse("y = -sin(x ^ 2)! + 4.5 % z").expect("a statement");
    assert_eq!(tree.clone(), tree);
}
