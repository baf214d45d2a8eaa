//! The parser: recursive descent over the tokens of a line, one function for
//! each phrase of the grammar.

use crate::ast::{Expr, ExprView, Opcode};
use crate::chars::to_chars;
use crate::grammar::{
    additive, additive_op, additive_tail, enclosed, failure, kind_is, lexeme, multiplicative,
    multiplicative_op, multiplicative_tail, parsed, postfix, postfix_tail, power, primary,
    statement, unary, Phrase, SyntaxError, SyntaxErrorKind,
};
use crate::derivation::is_statement;
use crate::literal::Literal;
use crate::theorems::{theorem_parsed_iff_statement, theorem_refused_iff_no_statement};
use crate::token::{tokenize, tokens, well_placed, Token, TokenKind};
use vstd::prelude::*;

verus! {

/// The parser's result for a phrase is the one that the grammar gives.
pub open spec fn agrees(r: Result<(Expr, usize), SyntaxError>, phrase: Phrase) -> bool {
    match r {
        Ok((tree, end)) => phrase == Ok::<(ExprView, int), SyntaxError>((tree@, end as int)),
        Err(e) => phrase == Err::<(ExprView, int), SyntaxError>(e),
    }
}

/// A result of the parser that is a tree ends after `pos` and within the tokens.
pub open spec fn moves(r: Result<(Expr, usize), SyntaxError>, pos: usize, len: usize) -> bool {
    r matches Ok((_, end)) ==> pos < end <= len
}

/// A line under parsing: its text, the number of its characters, its tokens.
struct Input<'a> {
    text: &'a str,
    length: usize,
    tokens: &'a Vec<Token>,
}

impl<'a> Input<'a> {
    spec fn wf(&self) -> bool {
        &&& self.length == self.text@.len()
        &&& well_placed(self.text@, self.tokens@)
    }

    /// Whether the token at `pos` is of the given kind.
    fn is(&self, pos: usize, kind: TokenKind) -> (b: bool)
        ensures
            b == kind_is(self.tokens@, pos as int, kind),
    {
        pos < self.tokens.len() && self.tokens[pos].kind == kind
    }

    fn failure(&self, pos: usize) -> (e: SyntaxError)
        requires
            self.wf(),
        ensures
            e == failure(self.text@, self.tokens@, pos as int),
    {
        if pos < self.tokens.len() {
            let token = self.tokens[pos];
            let kind = if token.kind == TokenKind::Invalid {
                SyntaxErrorKind::InvalidCharacter
            } else {
                SyntaxErrorKind::UnexpectedToken
            };
            SyntaxError { kind, position: token.start }
        } else {
            SyntaxError { kind: SyntaxErrorKind::UnexpectedEnd, position: self.length }
        }
    }

    fn lexeme(&self, pos: usize) -> (s: &'a str)
        requires
            self.wf(),
            pos < self.tokens.len(),
        ensures
            s@ == lexeme(self.text@, self.tokens@[pos as int]),
    {
        let token = self.tokens[pos];
        self.text.substring_char(token.start, token.end)
    }

    fn statement(&self, pos: usize) -> (r: Result<(Expr, usize), SyntaxError>)
        requires
            self.wf(),
            pos <= self.tokens.len(),
        ensures
            agrees(r, statement(self.text@, self.tokens@, pos as int)),
            moves(r, pos, self.tokens.len()),
        decreases self.tokens.len() - pos, 9int,
    {
        if self.is(pos, TokenKind::Identifier) && self.is(pos + 1, TokenKind::Equals) {
            match self.statement(pos + 2) {
                Ok((value, end)) => Ok(
                    (Expr::Assign(self.lexeme(pos).to_owned(), Box::new(value)), end),
                ),
                Err(e) => Err(e),
            }
        } else {
            self.additive(pos)
        }
    }

    fn additive(&self, pos: usize) -> (r: Result<(Expr, usize), SyntaxError>)
        requires
            self.wf(),
            pos <= self.tokens.len(),
        ensures
            agrees(r, additive(self.text@, self.tokens@, pos as int)),
            moves(r, pos, self.tokens.len()),
        decreases self.tokens.len() - pos, 8int,
    {
        let (mut left, mut at) = match self.multiplicative(pos) {
            Ok(first) => first,
            Err(e) => return Err(e),
        };
        while at < self.tokens.len() && additive_operator(self.tokens[at].kind).is_some()
            invariant
                self.wf(),
                pos < at <= self.tokens.len(),
                additive(self.text@, self.tokens@, pos as int) == additive_tail(
                    self.text@,
                    self.tokens@,
                    at as int,
                    left@,
                ),
            decreases self.tokens.len() - at,
        {
            let op = additive_operator(self.tokens[at].kind).unwrap();
            match self.multiplicative(at + 1) {
                Ok((right, end)) => {
                    left = Expr::Op(Box::new(left), op, Box::new(right));
                    at = end;
                },
                Err(e) => return Err(e),
            }
        }
        Ok((left, at))
    }

    fn multiplicative(&self, pos: usize) -> (r: Result<(Expr, usize), SyntaxError>)
        requires
            self.wf(),
            pos <= self.tokens.len(),
        ensures
            agrees(r, multiplicative(self.text@, self.tokens@, pos as int)),
            moves(r, pos, self.tokens.len()),
        decreases self.tokens.len() - pos, 6int,
    {
        let (mut left, mut at) = match self.power(pos) {
            Ok(first) => first,
            Err(e) => return Err(e),
        };
        while at < self.tokens.len() && multiplicative_operator(self.tokens[at].kind).is_some()
            invariant
                self.wf(),
                pos < at <= self.tokens.len(),
                multiplicative(self.text@, self.tokens@, pos as int) == multiplicative_tail(
                    self.text@,
                    self.tokens@,
                    at as int,
                    left@,
                ),
            decreases self.tokens.len() - at,
        {
            let op = multiplicative_operator(self.tokens[at].kind).unwrap();
            match self.power(at + 1) {
                Ok((right, end)) => {
                    left = Expr::Op(Box::new(left), op, Box::new(right));
                    at = end;
                },
                Err(e) => return Err(e),
            }
        }
        Ok((left, at))
    }

    fn power(&self, pos: usize) -> (r: Result<(Expr, usize), SyntaxError>)
        requires
            self.wf(),
            pos <= self.tokens.len(),
        ensures
            agrees(r, power(self.text@, self.tokens@, pos as int)),
            moves(r, pos, self.tokens.len()),
        decreases self.tokens.len() - pos, 4int,
    {
        match self.unary(pos) {
            Ok((base, end)) => {
                if self.is(end, TokenKind::Caret) {
                    match self.power(end + 1) {
                        Ok((exponent, after)) => Ok(
                            (Expr::Op(Box::new(base), Opcode::Pow, Box::new(exponent)), after),
                        ),
                        Err(e) => Err(e),
                    }
                } else {
                    Ok((base, end))
                }
            },
            Err(e) => Err(e),
        }
    }

    fn unary(&self, pos: usize) -> (r: Result<(Expr, usize), SyntaxError>)
        requires
            self.wf(),
            pos <= self.tokens.len(),
        ensures
            agrees(r, unary(self.text@, self.tokens@, pos as int)),
            moves(r, pos, self.tokens.len()),
        decreases self.tokens.len() - pos, 3int,
    {
        if self.is(pos, TokenKind::Minus) {
            match self.unary(pos + 1) {
                Ok((operand, end)) => Ok((Expr::Neg(Box::new(operand)), end)),
                Err(e) => Err(e),
            }
        } else {
            self.postfix(pos)
        }
    }

    fn postfix(&self, pos: usize) -> (r: Result<(Expr, usize), SyntaxError>)
        requires
            self.wf(),
            pos <= self.tokens.len(),
        ensures
            agrees(r, postfix(self.text@, self.tokens@, pos as int)),
            moves(r, pos, self.tokens.len()),
        decreases self.tokens.len() - pos, 2int,
    {
        let (mut operand, mut at) = match self.primary(pos) {
            Ok(first) => first,
            Err(e) => return Err(e),
        };
        while self.is(at, TokenKind::Bang)
            invariant
                pos < at <= self.tokens.len(),
                postfix(self.text@, self.tokens@, pos as int) == Ok::<(ExprView, int), SyntaxError>(
                    postfix_tail(self.tokens@, at as int, operand@),
                ),
            decreases self.tokens.len() - at,
        {
            operand = Expr::Factorial(Box::new(operand));
            at = at + 1;
        }
        Ok((operand, at))
    }

    fn enclosed(&self, pos: usize) -> (r: Result<(Expr, usize), SyntaxError>)
        requires
            self.wf(),
            pos <= self.tokens.len(),
        ensures
            agrees(r, enclosed(self.text@, self.tokens@, pos as int)),
            moves(r, pos, self.tokens.len()),
        decreases self.tokens.len() - pos, 10int,
    {
        match self.statement(pos) {
            Ok((inner, end)) => {
                if self.is(end, TokenKind::RParen) {
                    Ok((inner, end + 1))
                } else {
                    Err(self.failure(end))
                }
            },
            Err(e) => Err(e),
        }
    }

    fn primary(&self, pos: usize) -> (r: Result<(Expr, usize), SyntaxError>)
        requires
            self.wf(),
            pos <= self.tokens.len(),
        ensures
            agrees(r, primary(self.text@, self.tokens@, pos as int)),
            moves(r, pos, self.tokens.len()),
        decreases self.tokens.len() - pos, 1int,
    {
        if pos >= self.tokens.len() {
            return Err(self.failure(pos));
        }
        match self.tokens[pos].kind {
            TokenKind::Number => Ok(
                (Expr::Number(Literal::from_decimal(self.lexeme(pos))), pos + 1),
            ),
            TokenKind::Identifier => {
                if self.is(pos + 1, TokenKind::LParen) {
                    match self.enclosed(pos + 2) {
                        Ok((argument, end)) => Ok(
                            (Expr::Call(self.lexeme(pos).to_owned(), Box::new(argument)), end),
                        ),
                        Err(e) => Err(e),
                    }
                } else {
                    Ok((Expr::Var(self.lexeme(pos).to_owned()), pos + 1))
                }
            },
            TokenKind::LParen => self.enclosed(pos + 1),
            _ => Err(self.failure(pos)),
        }
    }
}

fn additive_operator(kind: TokenKind) -> (r: Option<Opcode>)
    ensures
        r == additive_op(kind),
{
    match kind {
        TokenKind::Plus => Some(Opcode::Add),
        TokenKind::Minus => Some(Opcode::Sub),
        _ => None,
    }
}

fn multiplicative_operator(kind: TokenKind) -> (r: Option<Opcode>)
    ensures
        r == multiplicative_op(kind),
{
    match kind {
        TokenKind::Star => Some(Opcode::Mul),
        TokenKind::Slash => Some(Opcode::Div),
        TokenKind::Percent => Some(Opcode::Mod),
        _ => None,
    }
}

/// Reads a line as one statement.
///
/// Where the tokens of the line, all of them, are a statement, the result is
/// the tree of that statement; there is one only. Where they are not, the
/// result is the grammar's error: it names the first character that cannot
/// continue a statement, or the end of the line where the statement is
/// incomplete.
pub fn parse(text: &str) -> (r: Result<Expr, SyntaxError>)
    ensures
        match r {
            Ok(tree) => {
                &&& parsed(text@) == Ok::<ExprView, SyntaxError>(tree@)
                &&& is_statement(text@, tokens(text@), 0, tokens(text@).len() as int, tree@)
            },
            Err(e) => {
                &&& parsed(text@) == Err::<ExprView, SyntaxError>(e)
                &&& forall|tree: ExprView|
                    !is_statement(text@, tokens(text@), 0, tokens(text@).len() as int, tree)
            },
        },
{
    proof {
        theorem_refused_iff_no_statement(text@);
    }
    let chars = to_chars(text);
    let tokens = tokenize(&chars);
    let input = Input { text, length: chars.len(), tokens: &tokens };
    match input.statement(0) {
        Ok((tree, end)) => {
            if end == tokens.len() {
                proof {
                    theorem_parsed_iff_statement(text@, tree@);
                }
                Ok(tree)
            } else {
                Err(input.failure(end))
            }
        },
        Err(e) => Err(e),
    }
}

} // verus!
