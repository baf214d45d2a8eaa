//! The tree that a statement is read into.

use crate::literal::Literal;
use vstd::prelude::*;

verus! {

/// The binary operators.
#[derive(Debug, Clone, Copy, PartialEq, Eq, Structural)]
pub enum Opcode {
    Add,
    Sub,
    Mul,
    Div,
    Mod,
    Pow,
}

/// A statement or expression. Every node owns its operands, so a value of
/// this type is a finite tree.
#[derive(Debug, PartialEq, Eq)]
pub enum Expr {
    /// A numeric literal.
    Number(Literal),
    /// The value bound to a name.
    Var(String),
    /// `name = value`: binds the name and yields the value.
    Assign(String, Box<Expr>),
    /// `left op right`.
    Op(Box<Expr>, Opcode, Box<Expr>),
    /// `-operand`.
    Neg(Box<Expr>),
    /// `operand!`.
    Factorial(Box<Expr>),
    /// `function(argument)`.
    Call(String, Box<Expr>),
}

/// The mathematical content of an [`Expr`]: the same tree, with names and
/// literals as sequences of characters.
pub enum ExprView {
    Number(Seq<char>),
    Var(Seq<char>),
    Assign(Seq<char>, Box<ExprView>),
    Op(Box<ExprView>, Opcode, Box<ExprView>),
    Neg(Box<ExprView>),
    Factorial(Box<ExprView>),
    Call(Seq<char>, Box<ExprView>),
}

impl View for Expr {
    type V = ExprView;

    open spec fn view(&self) -> ExprView
        decreases self,
    {
        match self {
            Expr::Number(n) => ExprView::Number(n@),
            Expr::Var(x) => ExprView::Var(x@),
            Expr::Assign(x, e) => ExprView::Assign(x@, Box::new((**e).view())),
            Expr::Op(l, op, r) => ExprView::Op(Box::new((**l).view()), *op, Box::new((**r).view())),
            Expr::Neg(e) => ExprView::Neg(Box::new((**e).view())),
            Expr::Factorial(e) => ExprView::Factorial(Box::new((**e).view())),
            Expr::Call(f, e) => ExprView::Call(f@, Box::new((**e).view())),
        }
    }
}

impl Clone for Expr {
    fn clone(&self) -> (r: Expr)
        ensures
            r@ == self@,
        decreases self,
    {
        match self {
            Expr::Number(n) => Expr::Number(n.clone()),
            Expr::Var(x) => Expr::Var(x.clone()),
            Expr::Assign(x, e) => Expr::Assign(x.clone(), Box::new((**e).clone())),
            Expr::Op(l, op, r) => Expr::Op(Box::new((**l).clone()), *op, Box::new((**r).clone())),
            Expr::Neg(e) => Expr::Neg(Box::new((**e).clone())),
            Expr::Factorial(e) => Expr::Factorial(Box::new((**e).clone())),
            Expr::Call(f, e) => Expr::Call(f.clone(), Box::new((**e).clone())),
        }
    }
}

} // verus!
