//! Every tree that the parser's grammar reads from a run of tokens is a tree
//! of that run in the relation of [`crate::derivation`].

use crate::ast::{ExprView, Opcode};
use crate::derivation::{
    additive_at, is_additive, is_multiplicative, is_postfix, is_power, is_primary, is_statement,
    is_unary, multiplicative_at,
};
use crate::grammar::{
    additive, additive_op, additive_tail, advances, enclosed, kind_is, lemma_enclosed_advances,
    lemma_power_advances, lemma_primary_advances, lemma_statement_advances, lemma_unary_advances,
    multiplicative, multiplicative_op, multiplicative_tail, postfix, postfix_tail, power, primary,
    statement, unary,
};
use crate::token::{Token, TokenKind};
use vstd::prelude::*;

verus! {

pub proof fn lemma_statement_sound(text: Seq<char>, ts: Seq<Token>, pos: int)
    requires
        0 <= pos,
    ensures
        statement(text, ts, pos) matches Ok((tree, end)) ==> is_statement(text, ts, pos, end, tree),
    decreases ts.len() - pos, 9int,
{
    if kind_is(ts, pos, TokenKind::Identifier) && kind_is(ts, pos + 1, TokenKind::Equals) {
        lemma_statement_sound(text, ts, pos + 2);
        lemma_statement_advances(text, ts, pos + 2);
    } else {
        lemma_additive_sound(text, ts, pos);
    }
}

pub proof fn lemma_additive_sound(text: Seq<char>, ts: Seq<Token>, pos: int)
    requires
        0 <= pos,
    ensures
        additive(text, ts, pos) matches Ok((tree, end)) ==> is_additive(text, ts, pos, end, tree),
    decreases ts.len() - pos, 8int,
{
    lemma_multiplicative_sound(text, ts, pos);
    if let Ok((left, end)) = multiplicative(text, ts, pos) {
        if advances(ts, pos, end) {
            lemma_additive_tail_sound(text, ts, pos, end, left);
        }
    }
}

/// What is read behind an additive phrase extends that phrase.
pub proof fn lemma_additive_tail_sound(
    text: Seq<char>,
    ts: Seq<Token>,
    start: int,
    pos: int,
    left: ExprView,
)
    requires
        0 <= start < pos <= ts.len(),
        is_additive(text, ts, start, pos, left),
    ensures
        additive_tail(text, ts, pos, left) matches Ok((tree, end)) ==> is_additive(
            text,
            ts,
            start,
            end,
            tree,
        ),
    decreases ts.len() - pos, 7int,
{
    if 0 <= pos < ts.len() && additive_op(ts[pos].kind) is Some {
        lemma_multiplicative_sound(text, ts, pos + 1);
        if let Ok((right, end)) = multiplicative(text, ts, pos + 1) {
            if advances(ts, pos, end) {
                let op = additive_op(ts[pos].kind)->0;
                let next = ExprView::Op(Box::new(left), op, Box::new(right));
                assert(additive_at(ts, pos, op));
                assert(is_additive(text, ts, start, end, next));
                lemma_additive_tail_sound(text, ts, start, end, next);
            }
        }
    }
}

pub proof fn lemma_multiplicative_sound(text: Seq<char>, ts: Seq<Token>, pos: int)
    requires
        0 <= pos,
    ensures
        multiplicative(text, ts, pos) matches Ok((tree, end)) ==> is_multiplicative(
            text,
            ts,
            pos,
            end,
            tree,
        ),
    decreases ts.len() - pos, 6int,
{
    lemma_power_sound(text, ts, pos);
    if let Ok((left, end)) = power(text, ts, pos) {
        if advances(ts, pos, end) {
            lemma_multiplicative_tail_sound(text, ts, pos, end, left);
        }
    }
}

/// What is read behind a multiplicative phrase extends that phrase.
pub proof fn lemma_multiplicative_tail_sound(
    text: Seq<char>,
    ts: Seq<Token>,
    start: int,
    pos: int,
    left: ExprView,
)
    requires
        0 <= start < pos <= ts.len(),
        is_multiplicative(text, ts, start, pos, left),
    ensures
        multiplicative_tail(text, ts, pos, left) matches Ok((tree, end)) ==> is_multiplicative(
            text,
            ts,
            start,
            end,
            tree,
        ),
    decreases ts.len() - pos, 5int,
{
    if 0 <= pos < ts.len() && multiplicative_op(ts[pos].kind) is Some {
        lemma_power_sound(text, ts, pos + 1);
        if let Ok((right, end)) = power(text, ts, pos + 1) {
            if advances(ts, pos, end) {
                let op = multiplicative_op(ts[pos].kind)->0;
                let next = ExprView::Op(Box::new(left), op, Box::new(right));
                assert(multiplicative_at(ts, pos, op));
                assert(is_multiplicative(text, ts, start, end, next));
                lemma_multiplicative_tail_sound(text, ts, start, end, next);
            }
        }
    }
}

pub proof fn lemma_power_sound(text: Seq<char>, ts: Seq<Token>, pos: int)
    requires
        0 <= pos,
    ensures
        power(text, ts, pos) matches Ok((tree, end)) ==> is_power(text, ts, pos, end, tree),
    decreases ts.len() - pos, 4int,
{
    lemma_unary_sound(text, ts, pos);
    if let Ok((base, end)) = unary(text, ts, pos) {
        if kind_is(ts, end, TokenKind::Caret) && advances(ts, pos, end) {
            lemma_power_sound(text, ts, end + 1);
            lemma_power_advances(text, ts, end + 1);
        }
    }
}

pub proof fn lemma_unary_sound(text: Seq<char>, ts: Seq<Token>, pos: int)
    requires
        0 <= pos,
    ensures
        unary(text, ts, pos) matches Ok((tree, end)) ==> is_unary(text, ts, pos, end, tree),
    decreases ts.len() - pos, 3int,
{
    if kind_is(ts, pos, TokenKind::Minus) {
        lemma_unary_sound(text, ts, pos + 1);
        lemma_unary_advances(text, ts, pos + 1);
    } else {
        lemma_postfix_sound(text, ts, pos);
    }
}

pub proof fn lemma_postfix_sound(text: Seq<char>, ts: Seq<Token>, pos: int)
    requires
        0 <= pos,
    ensures
        postfix(text, ts, pos) matches Ok((tree, end)) ==> is_postfix(text, ts, pos, end, tree),
    decreases ts.len() - pos, 2int,
{
    lemma_primary_sound(text, ts, pos);
    lemma_primary_advances(text, ts, pos);
    if let Ok((operand, end)) = primary(text, ts, pos) {
        lemma_postfix_tail_sound(text, ts, pos, end, operand);
    }
}

/// The factorial signs behind a postfix phrase extend that phrase.
pub proof fn lemma_postfix_tail_sound(
    text: Seq<char>,
    ts: Seq<Token>,
    start: int,
    pos: int,
    operand: ExprView,
)
    requires
        0 <= start < pos <= ts.len(),
        is_postfix(text, ts, start, pos, operand),
    ensures
        is_postfix(
            text,
            ts,
            start,
            postfix_tail(ts, pos, operand).1,
            postfix_tail(ts, pos, operand).0,
        ),
    decreases ts.len() - pos,
{
    if kind_is(ts, pos, TokenKind::Bang) {
        let next = ExprView::Factorial(Box::new(operand));
        assert(is_postfix(text, ts, start, pos + 1, next));
        lemma_postfix_tail_sound(text, ts, start, pos + 1, next);
    }
}

pub proof fn lemma_primary_sound(text: Seq<char>, ts: Seq<Token>, pos: int)
    requires
        0 <= pos,
    ensures
        primary(text, ts, pos) matches Ok((tree, end)) ==> is_primary(text, ts, pos, end, tree),
    decreases ts.len() - pos, 1int,
{
    if 0 <= pos < ts.len() {
        match ts[pos].kind {
            TokenKind::Identifier => {
                if kind_is(ts, pos + 1, TokenKind::LParen) {
                    lemma_enclosed_sound(text, ts, pos + 2);
                }
            },
            TokenKind::LParen => {
                lemma_enclosed_sound(text, ts, pos + 1);
            },
            _ => {},
        }
    }
}

pub proof fn lemma_enclosed_sound(text: Seq<char>, ts: Seq<Token>, pos: int)
    requires
        0 <= pos,
    ensures
        enclosed(text, ts, pos) matches Ok((tree, end)) ==> {
            &&& pos < end - 1
            &&& kind_is(ts, end - 1, TokenKind::RParen)
            &&& is_statement(text, ts, pos, end - 1, tree)
        },
    decreases ts.len() - pos, 10int,
{
    if pos <= ts.len() {
        lemma_statement_sound(text, ts, pos);
        lemma_statement_advances(text, ts, pos);
    }
}

} // verus!
