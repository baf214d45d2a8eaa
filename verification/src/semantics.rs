//! What a statement means: its value, or the error it ends in, and the
//! bindings it leaves behind.
//!
//! The meaning is stated relative to an `Arithmetic`, a function that gives
//! every computation on binary64 numbers its result. Whatever that function
//! is, the rules of evaluation are the ones written here.

use crate::ast::{ExprView, Opcode};
use crate::factorial::{product_up_to, word_size};
use crate::literal::Literal;
use crate::value::Value;
use vstd::prelude::*;

verus! {

/// The functions that a statement can call.
#[derive(Debug, Clone, Copy, PartialEq, Eq, Structural)]
pub enum Function {
    Sin,
    Cos,
    Sqrt,
    Ln,
}

/// A computation on binary64 numbers, to be carried out by the caller.
#[derive(Debug, PartialEq, Eq)]
pub enum Request {
    /// The number nearest to a decimal literal.
    Literal(Literal),
    /// `left op right`. For `Div` the right operand is not a zero.
    Binary(Opcode, Value, Value),
    /// The function of an argument. For `Sqrt` the argument is not below
    /// zero, for `Ln` it is above zero or a NaN.
    Call(Function, Value),
    /// The number nearest to an integer.
    Integer(u64),
}

/// The mathematical content of a [`Request`].
pub enum RequestView {
    Literal(Seq<char>),
    Binary(Opcode, Value, Value),
    Call(Function, Value),
    Integer(u64),
}

impl View for Request {
    type V = RequestView;

    open spec fn view(&self) -> RequestView {
        match self {
            Request::Literal(lit) => RequestView::Literal(lit@),
            Request::Binary(op, left, right) => RequestView::Binary(*op, *left, *right),
            Request::Call(function, argument) => RequestView::Call(*function, *argument),
            Request::Integer(n) => RequestView::Integer(*n),
        }
    }
}

/// Why a statement has no value.
#[derive(Debug, PartialEq, Eq)]
pub enum RuntimeError {
    /// A name was read that is not bound.
    UndeclaredVariable(String),
    /// The right operand of a division is a zero.
    DivisionByZero,
    /// The operand of a factorial is below zero or no whole number.
    InvalidFactorial,
    /// The argument of `sqrt` is below zero.
    NegativeSqrt,
    /// The argument of `ln` is zero or below.
    NonPositiveLog,
    /// A function was called that does not exist.
    UnknownFunction(String),
}

/// The mathematical content of a [`RuntimeError`].
pub enum RuntimeErrorView {
    UndeclaredVariable(Seq<char>),
    DivisionByZero,
    InvalidFactorial,
    NegativeSqrt,
    NonPositiveLog,
    UnknownFunction(Seq<char>),
}

impl View for RuntimeError {
    type V = RuntimeErrorView;

    open spec fn view(&self) -> RuntimeErrorView {
        match self {
            RuntimeError::UndeclaredVariable(name) => RuntimeErrorView::UndeclaredVariable(name@),
            RuntimeError::DivisionByZero => RuntimeErrorView::DivisionByZero,
            RuntimeError::InvalidFactorial => RuntimeErrorView::InvalidFactorial,
            RuntimeError::NegativeSqrt => RuntimeErrorView::NegativeSqrt,
            RuntimeError::NonPositiveLog => RuntimeErrorView::NonPositiveLog,
            RuntimeError::UnknownFunction(name) => RuntimeErrorView::UnknownFunction(name@),
        }
    }
}

/// The result of every computation that can be requested.
pub type Arithmetic = spec_fn(RequestView) -> Value;

/// What the names are bound to.
pub type Bindings = Map<Seq<char>, Value>;

/// A value, or the error in its place.
pub type Verdict = Result<Value, RuntimeErrorView>;

/// The function that a name denotes.
pub open spec fn function_named(name: Seq<char>) -> Option<Function> {
    if name == "sin"@ {
        Some(Function::Sin)
    } else if name == "cos"@ {
        Some(Function::Cos)
    } else if name == "sqrt"@ {
        Some(Function::Sqrt)
    } else if name == "ln"@ {
        Some(Function::Ln)
    } else {
        None
    }
}

/// `left op right`: dividing by a zero is an error, everything else is
/// computed.
pub open spec fn binary(op: Opcode, left: Value, right: Value, arith: Arithmetic) -> Verdict {
    if op == Opcode::Div && right.is_zero() {
        Err(RuntimeErrorView::DivisionByZero)
    } else {
        Ok(arith(RequestView::Binary(op, left, right)))
    }
}

/// `operand!`: defined for the whole numbers from zero on. The product is
/// formed on a 64-bit accumulator, see [`crate::factorial::factorial`], and
/// then turned back into a binary64 number.
pub open spec fn factorial_of(operand: Value, arith: Arithmetic) -> Verdict {
    match operand.count() {
        Some(n) => Ok(
            arith(RequestView::Integer((product_up_to(n as nat) % word_size()) as u64)),
        ),
        None => Err(RuntimeErrorView::InvalidFactorial),
    }
}

/// `name(argument)`: the name must be that of a function, and the argument
/// in the domain that this language gives the function.
pub open spec fn call(name: Seq<char>, argument: Value, arith: Arithmetic) -> Verdict {
    match function_named(name) {
        None => Err(RuntimeErrorView::UnknownFunction(name)),
        Some(function) => if function == Function::Sqrt && argument.is_negative() {
            Err(RuntimeErrorView::NegativeSqrt)
        } else if function == Function::Ln && (argument.is_negative() || argument.is_zero()) {
            Err(RuntimeErrorView::NonPositiveLog)
        } else {
            Ok(arith(RequestView::Call(function, argument)))
        },
    }
}

/// The meaning of `expr` where the names are bound as in `env`.
///
/// Operands are evaluated from left to right, each in the bindings that the
/// one before it left. The first error ends the evaluation; the bindings
/// made until then stay.
pub open spec fn semantics(expr: ExprView, env: Bindings, arith: Arithmetic) -> (Verdict, Bindings)
    decreases expr,
{
    match expr {
        ExprView::Number(text) => (Ok(arith(RequestView::Literal(text))), env),
        ExprView::Var(name) => if env.contains_key(name) {
            (Ok(env[name]), env)
        } else {
            (Err(RuntimeErrorView::UndeclaredVariable(name)), env)
        },
        ExprView::Assign(name, value) => match semantics(*value, env, arith) {
            (Ok(v), after) => (Ok(v), after.insert(name, v)),
            failed => failed,
        },
        ExprView::Op(left, op, right) => match semantics(*left, env, arith) {
            (Ok(l), between) => match semantics(*right, between, arith) {
                (Ok(r), after) => (binary(op, l, r, arith), after),
                failed => failed,
            },
            failed => failed,
        },
        ExprView::Neg(operand) => match semantics(*operand, env, arith) {
            (Ok(v), after) => (Ok(v.negation()), after),
            failed => failed,
        },
        ExprView::Factorial(operand) => match semantics(*operand, env, arith) {
            (Ok(v), after) => (factorial_of(v, arith), after),
            failed => failed,
        },
        ExprView::Call(name, argument) => match semantics(*argument, env, arith) {
            (Ok(v), after) => (call(name, v, arith), after),
            failed => failed,
        },
    }
}

/// Evaluation only adds bindings or replaces their values: a name that is
/// bound before a statement is bound after it.
pub proof fn lemma_bindings_stay(expr: ExprView, env: Bindings, arith: Arithmetic, name: Seq<char>)
    requires
        env.contains_key(name),
    ensures
        semantics(expr, env, arith).1.contains_key(name),
    decreases expr,
{
    match expr {
        ExprView::Number(_) => {},
        ExprView::Var(_) => {},
        ExprView::Assign(_, value) => {
            lemma_bindings_stay(*value, env, arith, name);
        },
        ExprView::Op(left, _, right) => {
            lemma_bindings_stay(*left, env, arith, name);
            lemma_bindings_stay(*right, semantics(*left, env, arith).1, arith, name);
        },
        ExprView::Neg(operand) => {
            lemma_bindings_stay(*operand, env, arith, name);
        },
        ExprView::Factorial(operand) => {
            lemma_bindings_stay(*operand, env, arith, name);
        },
        ExprView::Call(_, argument) => {
            lemma_bindings_stay(*argument, env, arith, name);
        },
    }
}

/// An assignment whose right side has a value yields that value and binds
/// the name to it, so that reading the name next yields the value again.
pub proof fn lemma_assignment_persists(
    name: Seq<char>,
    value: ExprView,
    env: Bindings,
    arith: Arithmetic,
)
    requires
        semantics(value, env, arith).0 is Ok,
    ensures
        ({
            let (v, after) = semantics(ExprView::Assign(name, Box::new(value)), env, arith);
            &&& v == semantics(value, env, arith).0
            &&& semantics(ExprView::Var(name), after, arith) == (v, after)
        }),
{
}

} // verus!
