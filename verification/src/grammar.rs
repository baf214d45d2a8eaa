//! The grammar, as a function from the tokens of a line to the tree they
//! denote.
//!
//! From the loosest binding to the tightest:
//!
//! ```text
//! statement      := Identifier '=' statement | additive
//! additive       := multiplicative (('+' | '-') multiplicative)*     left to right
//! multiplicative := power (('*' | '/' | '%') power)*                 left to right
//! power          := unary ('^' power)?                               right to left
//! unary          := '-' unary | postfix
//! postfix        := primary '!'*
//! primary        := Number | Identifier | Identifier '(' statement ')' | '(' statement ')'
//! ```
//!
//! Each function below reads one of these phrases from a position in the
//! tokens and gives the tree together with the position after the phrase, or
//! the error at the first token that cannot continue it.

use crate::ast::{ExprView, Opcode};
use crate::token::{tokens, Token, TokenKind};
use vstd::prelude::*;

verus! {

/// The ways in which a line can fail to be a statement.
#[derive(Debug, Clone, Copy, PartialEq, Eq, Structural)]
pub enum SyntaxErrorKind {
    /// A character that begins no token stands where a token is needed.
    InvalidCharacter,
    /// A token stands where the grammar allows none of its kind.
    UnexpectedToken,
    /// The line ends where the grammar needs a further token.
    UnexpectedEnd,
}

/// Why a line is no statement, and the index of the character at which it
/// ceases to be the beginning of one.
#[derive(Debug, Clone, Copy, PartialEq, Eq, Structural)]
pub struct SyntaxError {
    pub kind: SyntaxErrorKind,
    pub position: usize,
}

/// A tree and the position after the phrase it was read from.
pub type Phrase = Result<(ExprView, int), SyntaxError>;

/// The characters that a token was read from.
pub open spec fn lexeme(text: Seq<char>, t: Token) -> Seq<char> {
    text.subrange(t.start as int, t.end as int)
}

/// There is a token at `pos`, and it is of the given kind.
pub open spec fn kind_is(ts: Seq<Token>, pos: int, kind: TokenKind) -> bool {
    0 <= pos < ts.len() && ts[pos].kind == kind
}

/// The error of a line that cannot go on with what stands at `pos`.
pub open spec fn failure(text: Seq<char>, ts: Seq<Token>, pos: int) -> SyntaxError {
    if 0 <= pos < ts.len() {
        SyntaxError {
            kind: if ts[pos].kind == TokenKind::Invalid {
                SyntaxErrorKind::InvalidCharacter
            } else {
                SyntaxErrorKind::UnexpectedToken
            },
            position: ts[pos].start,
        }
    } else {
        SyntaxError { kind: SyntaxErrorKind::UnexpectedEnd, position: #[verifier::truncate] (text.len() as usize) }
    }
}

/// The operator that a token denotes between two additive operands.
pub open spec fn additive_op(kind: TokenKind) -> Option<Opcode> {
    match kind {
        TokenKind::Plus => Some(Opcode::Add),
        TokenKind::Minus => Some(Opcode::Sub),
        _ => None,
    }
}

/// The operator that a token denotes between two multiplicative operands.
pub open spec fn multiplicative_op(kind: TokenKind) -> Option<Opcode> {
    match kind {
        TokenKind::Star => Some(Opcode::Mul),
        TokenKind::Slash => Some(Opcode::Div),
        TokenKind::Percent => Some(Opcode::Mod),
        _ => None,
    }
}

/// The phrase read from `pos` ends after `pos` and within the tokens. Every
/// phrase does, see `lemma_statement_advances` and the lemmas beside it; the
/// definitions below test it where they go on reading from the end of a
/// phrase, which is what lets them recurse.
pub open spec fn advances(ts: Seq<Token>, pos: int, end: int) -> bool {
    pos < end <= ts.len()
}

/// Reads a statement: an assignment where a name and `=` begin it, else an
/// additive phrase.
pub open spec fn statement(text: Seq<char>, ts: Seq<Token>, pos: int) -> Phrase
    decreases ts.len() - pos, 9int,
{
    if kind_is(ts, pos, TokenKind::Identifier) && kind_is(ts, pos + 1, TokenKind::Equals) {
        match statement(text, ts, pos + 2) {
            Ok((value, end)) => Ok((ExprView::Assign(lexeme(text, ts[pos]), Box::new(value)), end)),
            Err(e) => Err(e),
        }
    } else {
        additive(text, ts, pos)
    }
}

/// Reads an additive phrase: a multiplicative phrase and what follows it.
pub open spec fn additive(text: Seq<char>, ts: Seq<Token>, pos: int) -> Phrase
    decreases ts.len() - pos, 8int,
{
    match multiplicative(text, ts, pos) {
        Ok((left, end)) => if advances(ts, pos, end) {
            additive_tail(text, ts, end, left)
        } else {
            Err(failure(text, ts, pos))
        },
        Err(e) => Err(e),
    }
}

/// What follows the operand `left` of an additive phrase: further operators
/// and operands, each operator taking all that was read so far as its left
/// operand.
pub open spec fn additive_tail(text: Seq<char>, ts: Seq<Token>, pos: int, left: ExprView) -> Phrase
    decreases ts.len() - pos, 7int,
{
    if 0 <= pos < ts.len() && additive_op(ts[pos].kind) is Some {
        match multiplicative(text, ts, pos + 1) {
            Ok((right, end)) => if advances(ts, pos, end) {
                additive_tail(
                    text,
                    ts,
                    end,
                    ExprView::Op(Box::new(left), additive_op(ts[pos].kind)->0, Box::new(right)),
                )
            } else {
                Err(failure(text, ts, pos))
            },
            Err(e) => Err(e),
        }
    } else {
        Ok((left, pos))
    }
}

/// Reads a multiplicative phrase: a power and what follows it.
pub open spec fn multiplicative(text: Seq<char>, ts: Seq<Token>, pos: int) -> Phrase
    decreases ts.len() - pos, 6int,
{
    match power(text, ts, pos) {
        Ok((left, end)) => if advances(ts, pos, end) {
            multiplicative_tail(text, ts, end, left)
        } else {
            Err(failure(text, ts, pos))
        },
        Err(e) => Err(e),
    }
}

/// What follows the operand `left` of a multiplicative phrase.
pub open spec fn multiplicative_tail(
    text: Seq<char>,
    ts: Seq<Token>,
    pos: int,
    left: ExprView,
) -> Phrase
    decreases ts.len() - pos, 5int,
{
    if 0 <= pos < ts.len() && multiplicative_op(ts[pos].kind) is Some {
        match power(text, ts, pos + 1) {
            Ok((right, end)) => if advances(ts, pos, end) {
                multiplicative_tail(
                    text,
                    ts,
                    end,
                    ExprView::Op(Box::new(left), multiplicative_op(ts[pos].kind)->0, Box::new(right)),
                )
            } else {
                Err(failure(text, ts, pos))
            },
            Err(e) => Err(e),
        }
    } else {
        Ok((left, pos))
    }
}

/// Reads a power: a unary phrase, and behind `^` the power that is its
/// exponent.
pub open spec fn power(text: Seq<char>, ts: Seq<Token>, pos: int) -> Phrase
    decreases ts.len() - pos, 4int,
{
    match unary(text, ts, pos) {
        Ok((base, end)) => if kind_is(ts, end, TokenKind::Caret) {
            if advances(ts, pos, end) {
                match power(text, ts, end + 1) {
                    Ok((exponent, after)) => Ok(
                        (ExprView::Op(Box::new(base), Opcode::Pow, Box::new(exponent)), after),
                    ),
                    Err(e) => Err(e),
                }
            } else {
                Err(failure(text, ts, pos))
            }
        } else {
            Ok((base, end))
        },
        Err(e) => Err(e),
    }
}

/// Reads a unary phrase: a postfix phrase behind any number of `-`.
pub open spec fn unary(text: Seq<char>, ts: Seq<Token>, pos: int) -> Phrase
    decreases ts.len() - pos, 3int,
{
    if kind_is(ts, pos, TokenKind::Minus) {
        match unary(text, ts, pos + 1) {
            Ok((operand, end)) => Ok((ExprView::Neg(Box::new(operand)), end)),
            Err(e) => Err(e),
        }
    } else {
        postfix(text, ts, pos)
    }
}

/// Reads a postfix phrase: a primary phrase and the `!` behind it.
pub open spec fn postfix(text: Seq<char>, ts: Seq<Token>, pos: int) -> Phrase
    decreases ts.len() - pos, 2int,
{
    match primary(text, ts, pos) {
        Ok((operand, end)) => Ok(postfix_tail(ts, end, operand)),
        Err(e) => Err(e),
    }
}

/// The operand with a factorial around it for each `!` from `pos` on.
pub open spec fn postfix_tail(ts: Seq<Token>, pos: int, operand: ExprView) -> (ExprView, int)
    decreases ts.len() - pos,
{
    if kind_is(ts, pos, TokenKind::Bang) {
        postfix_tail(ts, pos + 1, ExprView::Factorial(Box::new(operand)))
    } else {
        (operand, pos)
    }
}

/// A statement between parentheses, of which the opening one stands before `pos`.
pub open spec fn enclosed(text: Seq<char>, ts: Seq<Token>, pos: int) -> Phrase
    decreases ts.len() - pos, 10int,
{
    if 0 <= pos <= ts.len() {
        match statement(text, ts, pos) {
            Ok((inner, end)) => if kind_is(ts, end, TokenKind::RParen) {
                Ok((inner, end + 1))
            } else {
                Err(failure(text, ts, end))
            },
            Err(e) => Err(e),
        }
    } else {
        Err(failure(text, ts, pos))
    }
}

/// Reads a primary phrase: a literal, a name, a call, or a statement
/// between parentheses.
pub open spec fn primary(text: Seq<char>, ts: Seq<Token>, pos: int) -> Phrase
    decreases ts.len() - pos, 1int,
{
    if 0 <= pos < ts.len() {
        match ts[pos].kind {
            TokenKind::Number => Ok((ExprView::Number(lexeme(text, ts[pos])), pos + 1)),
            TokenKind::Identifier => if kind_is(ts, pos + 1, TokenKind::LParen) {
                match enclosed(text, ts, pos + 2) {
                    Ok((argument, end)) => Ok(
                        (ExprView::Call(lexeme(text, ts[pos]), Box::new(argument)), end),
                    ),
                    Err(e) => Err(e),
                }
            } else {
                Ok((ExprView::Var(lexeme(text, ts[pos])), pos + 1))
            },
            TokenKind::LParen => enclosed(text, ts, pos + 1),
            _ => Err(failure(text, ts, pos)),
        }
    } else {
        Err(failure(text, ts, pos))
    }
}

/// The statement that the tokens are, all of them.
pub open spec fn sentence(text: Seq<char>, ts: Seq<Token>) -> Result<ExprView, SyntaxError> {
    match statement(text, ts, 0) {
        Ok((tree, end)) => if end == ts.len() {
            Ok(tree)
        } else {
            Err(failure(text, ts, end))
        },
        Err(e) => Err(e),
    }
}

/// The tree that a line of text denotes, or the reason why it denotes none.
pub open spec fn parsed(text: Seq<char>) -> Result<ExprView, SyntaxError> {
    sentence(text, tokens(text))
}

/// A statement is not empty and ends within the tokens.
pub proof fn lemma_statement_advances(text: Seq<char>, ts: Seq<Token>, pos: int)
    requires
        0 <= pos,
    ensures
        statement(text, ts, pos) matches Ok((_, end)) ==> advances(ts, pos, end),
    decreases ts.len() - pos, 9int,
{
    if kind_is(ts, pos, TokenKind::Identifier) && kind_is(ts, pos + 1, TokenKind::Equals) {
        lemma_statement_advances(text, ts, pos + 2);
    } else {
        lemma_additive_advances(text, ts, pos);
    }
}

/// An additive phrase is not empty and ends within the tokens.
pub proof fn lemma_additive_advances(text: Seq<char>, ts: Seq<Token>, pos: int)
    requires
        0 <= pos,
    ensures
        additive(text, ts, pos) matches Ok((_, end)) ==> advances(ts, pos, end),
    decreases ts.len() - pos, 8int,
{
    if let Ok((left, end)) = multiplicative(text, ts, pos) {
        if advances(ts, pos, end) {
            lemma_additive_tail_advances(text, ts, end, left);
        }
    }
}

/// What follows an additive operand ends within the tokens.
pub proof fn lemma_additive_tail_advances(
    text: Seq<char>,
    ts: Seq<Token>,
    pos: int,
    left: ExprView,
)
    requires
        0 <= pos <= ts.len(),
    ensures
        additive_tail(text, ts, pos, left) matches Ok((_, end)) ==> pos <= end <= ts.len(),
    decreases ts.len() - pos, 7int,
{
    if 0 <= pos < ts.len() && additive_op(ts[pos].kind) is Some {
        if let Ok((right, end)) = multiplicative(text, ts, pos + 1) {
            if advances(ts, pos, end) {
                lemma_additive_tail_advances(
                    text,
                    ts,
                    end,
                    ExprView::Op(Box::new(left), additive_op(ts[pos].kind)->0, Box::new(right)),
                );
            }
        }
    }
}

/// A multiplicative phrase is not empty and ends within the tokens.
pub proof fn lemma_multiplicative_advances(text: Seq<char>, ts: Seq<Token>, pos: int)
    requires
        0 <= pos,
    ensures
        multiplicative(text, ts, pos) matches Ok((_, end)) ==> advances(ts, pos, end),
    decreases ts.len() - pos, 6int,
{
    if let Ok((left, end)) = power(text, ts, pos) {
        if advances(ts, pos, end) {
            lemma_multiplicative_tail_advances(text, ts, end, left);
        }
    }
}

/// What follows a multiplicative operand ends within the tokens.
pub proof fn lemma_multiplicative_tail_advances(
    text: Seq<char>,
    ts: Seq<Token>,
    pos: int,
    left: ExprView,
)
    requires
        0 <= pos <= ts.len(),
    ensures
        multiplicative_tail(text, ts, pos, left) matches Ok((_, end)) ==> pos <= end <= ts.len(),
    decreases ts.len() - pos, 5int,
{
    if 0 <= pos < ts.len() && multiplicative_op(ts[pos].kind) is Some {
        if let Ok((right, end)) = power(text, ts, pos + 1) {
            if advances(ts, pos, end) {
                lemma_multiplicative_tail_advances(
                    text,
                    ts,
                    end,
                    ExprView::Op(
                        Box::new(left),
                        multiplicative_op(ts[pos].kind)->0,
                        Box::new(right),
                    ),
                );
            }
        }
    }
}

/// A power is not empty and ends within the tokens.
pub proof fn lemma_power_advances(text: Seq<char>, ts: Seq<Token>, pos: int)
    requires
        0 <= pos,
    ensures
        power(text, ts, pos) matches Ok((_, end)) ==> advances(ts, pos, end),
    decreases ts.len() - pos, 4int,
{
    lemma_unary_advances(text, ts, pos);
    if let Ok((_, end)) = unary(text, ts, pos) {
        if kind_is(ts, end, TokenKind::Caret) && advances(ts, pos, end) {
            lemma_power_advances(text, ts, end + 1);
        }
    }
}

/// A unary phrase is not empty and ends within the tokens.
pub proof fn lemma_unary_advances(text: Seq<char>, ts: Seq<Token>, pos: int)
    requires
        0 <= pos,
    ensures
        unary(text, ts, pos) matches Ok((_, end)) ==> advances(ts, pos, end),
    decreases ts.len() - pos, 3int,
{
    if kind_is(ts, pos, TokenKind::Minus) {
        lemma_unary_advances(text, ts, pos + 1);
    } else {
        lemma_postfix_advances(text, ts, pos);
    }
}

/// A postfix phrase is not empty and ends within the tokens.
pub proof fn lemma_postfix_advances(text: Seq<char>, ts: Seq<Token>, pos: int)
    requires
        0 <= pos,
    ensures
        postfix(text, ts, pos) matches Ok((_, end)) ==> advances(ts, pos, end),
    decreases ts.len() - pos, 2int,
{
    lemma_primary_advances(text, ts, pos);
    if let Ok((operand, end)) = primary(text, ts, pos) {
        lemma_postfix_tail_advances(ts, end, operand);
    }
}

/// The factorial signs behind an operand end within the tokens.
pub proof fn lemma_postfix_tail_advances(ts: Seq<Token>, pos: int, operand: ExprView)
    requires
        0 <= pos <= ts.len(),
    ensures
        pos <= postfix_tail(ts, pos, operand).1 <= ts.len(),
    decreases ts.len() - pos,
{
    if kind_is(ts, pos, TokenKind::Bang) {
        lemma_postfix_tail_advances(ts, pos + 1, ExprView::Factorial(Box::new(operand)));
    }
}

/// A primary phrase is not empty and ends within the tokens.
pub proof fn lemma_primary_advances(text: Seq<char>, ts: Seq<Token>, pos: int)
    requires
        0 <= pos,
    ensures
        primary(text, ts, pos) matches Ok((_, end)) ==> advances(ts, pos, end),
    decreases ts.len() - pos, 1int,
{
    if 0 <= pos < ts.len() {
        match ts[pos].kind {
            TokenKind::Identifier => {
                if kind_is(ts, pos + 1, TokenKind::LParen) {
                    lemma_enclosed_advances(text, ts, pos + 2);
                }
            },
            TokenKind::LParen => {
                lemma_enclosed_advances(text, ts, pos + 1);
            },
            _ => {},
        }
    }
}

/// A statement and the parenthesis that closes it end within the tokens.
pub proof fn lemma_enclosed_advances(text: Seq<char>, ts: Seq<Token>, pos: int)
    requires
        0 <= pos,
    ensures
        enclosed(text, ts, pos) matches Ok((_, end)) ==> advances(ts, pos, end),
    decreases ts.len() - pos, 10int,
{
    if pos <= ts.len() {
        lemma_statement_advances(text, ts, pos);
    }
}

} // verus!
