//! Every tree of a run of tokens in the relation of [`crate::derivation`] is
//! the tree that the parser's grammar reads from that run, provided the
//! token behind the run cannot extend the phrase.

use crate::ast::{ExprView, Opcode};
use crate::derivation::{
    additive_at, is_additive, is_multiplicative, is_postfix, is_power, is_primary, is_statement,
    is_unary, multiplicative_at,
};
use crate::grammar::{
    additive, additive_op, additive_tail, advances, enclosed, kind_is, multiplicative,
    multiplicative_op, multiplicative_tail, postfix, postfix_tail, power, primary, statement,
    unary, SyntaxError,
};
use crate::token::{Token, TokenKind};
use vstd::prelude::*;

verus! {

/// The token at `lo` can begin an operand.
pub open spec fn operand_starts(ts: Seq<Token>, lo: int) -> bool {
    ||| kind_is(ts, lo, TokenKind::Number)
    ||| kind_is(ts, lo, TokenKind::Identifier)
    ||| kind_is(ts, lo, TokenKind::LParen)
}

/// Where a run of more than one token begins with a name, no `=` follows the name.
pub open spec fn no_assignment(ts: Seq<Token>, lo: int, hi: int) -> bool {
    kind_is(ts, lo, TokenKind::Identifier) && lo + 1 < hi ==> !kind_is(ts, lo + 1, TokenKind::Equals)
}

/// No parenthesis opens at `hi`: a name that ends there is no function.
pub open spec fn primary_ends(ts: Seq<Token>, hi: int) -> bool {
    !kind_is(ts, hi, TokenKind::LParen)
}

/// No token at `hi` extends a postfix or unary phrase that ends there.
pub open spec fn postfix_ends(ts: Seq<Token>, hi: int) -> bool {
    primary_ends(ts, hi) && !kind_is(ts, hi, TokenKind::Bang)
}

/// No token at `hi` extends a power that ends there.
pub open spec fn power_ends(ts: Seq<Token>, hi: int) -> bool {
    postfix_ends(ts, hi) && !kind_is(ts, hi, TokenKind::Caret)
}

/// No token at `hi` extends a multiplicative phrase that ends there.
pub open spec fn multiplicative_ends(ts: Seq<Token>, hi: int) -> bool {
    power_ends(ts, hi) && !(0 <= hi < ts.len() && multiplicative_op(ts[hi].kind) is Some)
}

/// No token at `hi` extends an additive phrase that ends there.
pub open spec fn additive_ends(ts: Seq<Token>, hi: int) -> bool {
    multiplicative_ends(ts, hi) && !(0 <= hi < ts.len() && additive_op(ts[hi].kind) is Some)
}

/// No token at `hi` extends a statement that ends there.
pub open spec fn statement_ends(ts: Seq<Token>, hi: int) -> bool {
    additive_ends(ts, hi) && !kind_is(ts, hi, TokenKind::Equals)
}

pub proof fn lemma_statement_shape(text: Seq<char>, ts: Seq<Token>, lo: int, hi: int, tree: ExprView)
    requires
        is_statement(text, ts, lo, hi, tree),
    ensures
        0 <= lo < hi <= ts.len(),
    decreases hi - lo, 18int,
{
    if is_additive(text, ts, lo, hi, tree) {
        lemma_additive_shape(text, ts, lo, hi, tree);
    } else {
        lemma_statement_shape(text, ts, lo + 2, hi, *tree->Assign_1);
    }
}

pub proof fn lemma_additive_shape(text: Seq<char>, ts: Seq<Token>, lo: int, hi: int, tree: ExprView)
    requires
        is_additive(text, ts, lo, hi, tree),
    ensures
        0 <= lo < hi <= ts.len(),
        no_assignment(ts, lo, hi),
    decreases hi - lo, 16int,
{
    if is_multiplicative(text, ts, lo, hi, tree) {
        lemma_multiplicative_shape(text, ts, lo, hi, tree);
    } else {
        let left = *tree->Op_0;
        let op = tree->Op_1;
        let right = *tree->Op_2;
        let mid = choose|mid: int|
            {
                &&& lo < mid < hi
                &&& #[trigger] additive_at(ts, mid, op)
                &&& is_additive(text, ts, lo, mid, left)
                &&& is_multiplicative(text, ts, mid + 1, hi, right)
            };
        lemma_additive_shape(text, ts, lo, mid, left);
        lemma_multiplicative_shape(text, ts, mid + 1, hi, right);
    }
}

pub proof fn lemma_multiplicative_shape(
    text: Seq<char>,
    ts: Seq<Token>,
    lo: int,
    hi: int,
    tree: ExprView,
)
    requires
        is_multiplicative(text, ts, lo, hi, tree),
    ensures
        0 <= lo < hi <= ts.len(),
        no_assignment(ts, lo, hi),
    decreases hi - lo, 14int,
{
    if is_power(text, ts, lo, hi, tree) {
        lemma_power_shape(text, ts, lo, hi, tree);
    } else {
        let left = *tree->Op_0;
        let op = tree->Op_1;
        let right = *tree->Op_2;
        let mid = choose|mid: int|
            {
                &&& lo < mid < hi
                &&& #[trigger] multiplicative_at(ts, mid, op)
                &&& is_multiplicative(text, ts, lo, mid, left)
                &&& is_power(text, ts, mid + 1, hi, right)
            };
        lemma_multiplicative_shape(text, ts, lo, mid, left);
        lemma_power_shape(text, ts, mid + 1, hi, right);
    }
}

pub proof fn lemma_power_shape(text: Seq<char>, ts: Seq<Token>, lo: int, hi: int, tree: ExprView)
    requires
        is_power(text, ts, lo, hi, tree),
    ensures
        0 <= lo < hi <= ts.len(),
        no_assignment(ts, lo, hi),
    decreases hi - lo, 12int,
{
    if is_unary(text, ts, lo, hi, tree) {
        lemma_unary_shape(text, ts, lo, hi, tree);
    } else {
        let base = *tree->Op_0;
        let exponent = *tree->Op_2;
        let mid = choose|mid: int|
            {
                &&& lo < mid < hi
                &&& #[trigger] kind_is(ts, mid, TokenKind::Caret)
                &&& is_unary(text, ts, lo, mid, base)
                &&& is_power(text, ts, mid + 1, hi, exponent)
            };
        lemma_unary_shape(text, ts, lo, mid, base);
        lemma_power_shape(text, ts, mid + 1, hi, exponent);
    }
}

pub proof fn lemma_unary_shape(text: Seq<char>, ts: Seq<Token>, lo: int, hi: int, tree: ExprView)
    requires
        is_unary(text, ts, lo, hi, tree),
    ensures
        0 <= lo < hi <= ts.len(),
        no_assignment(ts, lo, hi),
    decreases hi - lo, 10int,
{
    if is_postfix(text, ts, lo, hi, tree) {
        lemma_postfix_shape(text, ts, lo, hi, tree);
    } else {
        lemma_unary_shape(text, ts, lo + 1, hi, *tree->Neg_0);
    }
}

pub proof fn lemma_postfix_shape(text: Seq<char>, ts: Seq<Token>, lo: int, hi: int, tree: ExprView)
    requires
        is_postfix(text, ts, lo, hi, tree),
    ensures
        0 <= lo < hi <= ts.len(),
        no_assignment(ts, lo, hi),
        operand_starts(ts, lo),
    decreases hi - lo, 8int,
{
    if is_primary(text, ts, lo, hi, tree) {
    } else {
        lemma_postfix_shape(text, ts, lo, hi - 1, *tree->Factorial_0);
    }
}

/// A primary phrase is read as its tree where no parenthesis follows it.
pub proof fn lemma_primary_complete(
    text: Seq<char>,
    ts: Seq<Token>,
    lo: int,
    hi: int,
    tree: ExprView,
)
    requires
        is_primary(text, ts, lo, hi, tree),
        primary_ends(ts, hi),
    ensures
        primary(text, ts, lo) == Ok::<(ExprView, int), SyntaxError>((tree, hi)),
    decreases hi - lo, 6int,
{
    if hi == lo + 1 {
    } else if kind_is(ts, lo, TokenKind::Identifier) {
        lemma_statement_complete(text, ts, lo + 2, hi - 1, *tree->Call_1);
    } else {
        lemma_statement_complete(text, ts, lo + 1, hi - 1, tree);
    }
}

/// A postfix phrase is read up to where it ends, and on from there.
pub proof fn lemma_postfix_extends(
    text: Seq<char>,
    ts: Seq<Token>,
    lo: int,
    hi: int,
    tree: ExprView,
)
    requires
        is_postfix(text, ts, lo, hi, tree),
        primary_ends(ts, hi),
    ensures
        postfix(text, ts, lo) == Ok::<(ExprView, int), SyntaxError>(postfix_tail(ts, hi, tree)),
    decreases hi - lo, 8int,
{
    if is_primary(text, ts, lo, hi, tree) {
        lemma_primary_complete(text, ts, lo, hi, tree);
    } else {
        lemma_postfix_extends(text, ts, lo, hi - 1, *tree->Factorial_0);
    }
}

pub proof fn lemma_postfix_complete(
    text: Seq<char>,
    ts: Seq<Token>,
    lo: int,
    hi: int,
    tree: ExprView,
)
    requires
        is_postfix(text, ts, lo, hi, tree),
        postfix_ends(ts, hi),
    ensures
        postfix(text, ts, lo) == Ok::<(ExprView, int), SyntaxError>((tree, hi)),
    decreases hi - lo, 9int,
{
    lemma_postfix_extends(text, ts, lo, hi, tree);
}

pub proof fn lemma_unary_complete(text: Seq<char>, ts: Seq<Token>, lo: int, hi: int, tree: ExprView)
    requires
        is_unary(text, ts, lo, hi, tree),
        postfix_ends(ts, hi),
    ensures
        unary(text, ts, lo) == Ok::<(ExprView, int), SyntaxError>((tree, hi)),
    decreases hi - lo, 10int,
{
    if is_postfix(text, ts, lo, hi, tree) {
        lemma_postfix_shape(text, ts, lo, hi, tree);
        lemma_postfix_complete(text, ts, lo, hi, tree);
    } else {
        lemma_unary_complete(text, ts, lo + 1, hi, *tree->Neg_0);
    }
}

pub proof fn lemma_power_complete(text: Seq<char>, ts: Seq<Token>, lo: int, hi: int, tree: ExprView)
    requires
        is_power(text, ts, lo, hi, tree),
        power_ends(ts, hi),
    ensures
        power(text, ts, lo) == Ok::<(ExprView, int), SyntaxError>((tree, hi)),
    decreases hi - lo, 12int,
{
    if is_unary(text, ts, lo, hi, tree) {
        lemma_unary_complete(text, ts, lo, hi, tree);
    } else {
        let base = *tree->Op_0;
        let exponent = *tree->Op_2;
        let mid = choose|mid: int|
            {
                &&& lo < mid < hi
                &&& #[trigger] kind_is(ts, mid, TokenKind::Caret)
                &&& is_unary(text, ts, lo, mid, base)
                &&& is_power(text, ts, mid + 1, hi, exponent)
            };
        lemma_unary_complete(text, ts, lo, mid, base);
        lemma_power_complete(text, ts, mid + 1, hi, exponent);
    }
}

/// A multiplicative phrase is read up to where it ends, and on from there.
pub proof fn lemma_multiplicative_extends(
    text: Seq<char>,
    ts: Seq<Token>,
    lo: int,
    hi: int,
    tree: ExprView,
)
    requires
        is_multiplicative(text, ts, lo, hi, tree),
        power_ends(ts, hi),
    ensures
        multiplicative(text, ts, lo) == multiplicative_tail(text, ts, hi, tree),
    decreases hi - lo, 14int,
{
    lemma_multiplicative_shape(text, ts, lo, hi, tree);
    if is_power(text, ts, lo, hi, tree) {
        lemma_power_complete(text, ts, lo, hi, tree);
    } else {
        let left = *tree->Op_0;
        let op = tree->Op_1;
        let right = *tree->Op_2;
        let mid = choose|mid: int|
            {
                &&& lo < mid < hi
                &&& #[trigger] multiplicative_at(ts, mid, op)
                &&& is_multiplicative(text, ts, lo, mid, left)
                &&& is_power(text, ts, mid + 1, hi, right)
            };
        lemma_multiplicative_extends(text, ts, lo, mid, left);
        lemma_power_complete(text, ts, mid + 1, hi, right);
        assert(advances(ts, mid, hi));
    }
}

pub proof fn lemma_multiplicative_complete(
    text: Seq<char>,
    ts: Seq<Token>,
    lo: int,
    hi: int,
    tree: ExprView,
)
    requires
        is_multiplicative(text, ts, lo, hi, tree),
        multiplicative_ends(ts, hi),
    ensures
        multiplicative(text, ts, lo) == Ok::<(ExprView, int), SyntaxError>((tree, hi)),
    decreases hi - lo, 15int,
{
    lemma_multiplicative_extends(text, ts, lo, hi, tree);
}

/// An additive phrase is read up to where it ends, and on from there.
pub proof fn lemma_additive_extends(
    text: Seq<char>,
    ts: Seq<Token>,
    lo: int,
    hi: int,
    tree: ExprView,
)
    requires
        is_additive(text, ts, lo, hi, tree),
        multiplicative_ends(ts, hi),
    ensures
        additive(text, ts, lo) == additive_tail(text, ts, hi, tree),
    decreases hi - lo, 16int,
{
    lemma_additive_shape(text, ts, lo, hi, tree);
    if is_multiplicative(text, ts, lo, hi, tree) {
        lemma_multiplicative_complete(text, ts, lo, hi, tree);
    } else {
        let left = *tree->Op_0;
        let op = tree->Op_1;
        let right = *tree->Op_2;
        let mid = choose|mid: int|
            {
                &&& lo < mid < hi
                &&& #[trigger] additive_at(ts, mid, op)
                &&& is_additive(text, ts, lo, mid, left)
                &&& is_multiplicative(text, ts, mid + 1, hi, right)
            };
        lemma_additive_extends(text, ts, lo, mid, left);
        lemma_multiplicative_complete(text, ts, mid + 1, hi, right);
        assert(advances(ts, mid, hi));
    }
}

pub proof fn lemma_additive_complete(
    text: Seq<char>,
    ts: Seq<Token>,
    lo: int,
    hi: int,
    tree: ExprView,
)
    requires
        is_additive(text, ts, lo, hi, tree),
        additive_ends(ts, hi),
    ensures
        additive(text, ts, lo) == Ok::<(ExprView, int), SyntaxError>((tree, hi)),
    decreases hi - lo, 17int,
{
    lemma_additive_extends(text, ts, lo, hi, tree);
}

/// A statement is read as its tree where no token behind it can extend it.
pub proof fn lemma_statement_complete(
    text: Seq<char>,
    ts: Seq<Token>,
    lo: int,
    hi: int,
    tree: ExprView,
)
    requires
        is_statement(text, ts, lo, hi, tree),
        statement_ends(ts, hi),
    ensures
        statement(text, ts, lo) == Ok::<(ExprView, int), SyntaxError>((tree, hi)),
    decreases hi - lo, 18int,
{
    if is_additive(text, ts, lo, hi, tree) {
        lemma_additive_shape(text, ts, lo, hi, tree);
        lemma_additive_complete(text, ts, lo, hi, tree);
    } else {
        lemma_statement_complete(text, ts, lo + 2, hi, *tree->Assign_1);
    }
}

} // verus!
