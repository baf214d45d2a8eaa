//! The lexical layer: how a line of text falls into tokens.

use crate::chars::{digit, is_digit, is_letter, is_space, is_word, letter, space, word};
use crate::literal::{all_digits, digits_end, is_decimal, lemma_digits_end, scan_digits};
use vstd::prelude::*;

verus! {

/// What a token is.
#[derive(Debug, Clone, Copy, PartialEq, Eq, Structural)]
pub enum TokenKind {
    /// A numeric literal.
    Number,
    /// A name.
    Identifier,
    /// `+`
    Plus,
    /// `-`
    Minus,
    /// `*`
    Star,
    /// `/`
    Slash,
    /// `%`
    Percent,
    /// `^`
    Caret,
    /// `!`
    Bang,
    /// `=`
    Equals,
    /// `(`
    LParen,
    /// `)`
    RParen,
    /// A character that begins no token.
    Invalid,
}

/// A token, and the characters from `start` up to `end` that it was read from.
#[derive(Debug, Clone, Copy, PartialEq, Eq, Structural)]
pub struct Token {
    pub kind: TokenKind,
    pub start: usize,
    pub end: usize,
}

/// The token that a single character stands for, if it is one by itself.
pub open spec fn symbol(c: char) -> Option<TokenKind> {
    if c == '+' {
        Some(TokenKind::Plus)
    } else if c == '-' {
        Some(TokenKind::Minus)
    } else if c == '*' {
        Some(TokenKind::Star)
    } else if c == '/' {
        Some(TokenKind::Slash)
    } else if c == '%' {
        Some(TokenKind::Percent)
    } else if c == '^' {
        Some(TokenKind::Caret)
    } else if c == '!' {
        Some(TokenKind::Bang)
    } else if c == '=' {
        Some(TokenKind::Equals)
    } else if c == '(' {
        Some(TokenKind::LParen)
    } else if c == ')' {
        Some(TokenKind::RParen)
    } else {
        None
    }
}

/// The first position from `pos` on that holds no space.
pub open spec fn spaces_end(s: Seq<char>, pos: int) -> int
    decreases s.len() - pos,
{
    if 0 <= pos < s.len() && space(s[pos]) {
        spaces_end(s, pos + 1)
    } else {
        pos
    }
}

/// The first position from `pos` on that holds neither a letter nor a digit.
pub open spec fn word_end(s: Seq<char>, pos: int) -> int
    decreases s.len() - pos,
{
    if 0 <= pos < s.len() && word(s[pos]) {
        word_end(s, pos + 1)
    } else {
        pos
    }
}

/// Where the numeric literal that begins at `pos` ends: after its digits, and
/// after a point and further digits if both follow.
pub open spec fn number_end(s: Seq<char>, pos: int) -> int {
    let whole = digits_end(s, pos);
    if 0 <= whole && whole + 1 < s.len() && s[whole] == '.' && digit(s[whole + 1]) {
        digits_end(s, whole + 2)
    } else {
        whole
    }
}

/// The kind of the token that begins at `pos`, which holds no space.
pub open spec fn kind_at(s: Seq<char>, pos: int) -> TokenKind {
    if digit(s[pos]) {
        TokenKind::Number
    } else if let Some(kind) = symbol(s[pos]) {
        kind
    } else if letter(s[pos]) {
        TokenKind::Identifier
    } else {
        TokenKind::Invalid
    }
}

/// Where the token that begins at `pos` ends. Literals and names extend as
/// far as they can.
pub open spec fn end_at(s: Seq<char>, pos: int) -> int {
    match kind_at(s, pos) {
        TokenKind::Number => number_end(s, pos),
        TokenKind::Identifier => word_end(s, pos + 1),
        _ => pos + 1,
    }
}

/// `s` is written as a name: a letter, followed by letters and digits.
pub open spec fn is_name(s: Seq<char>) -> bool {
    &&& s.len() > 0
    &&& letter(s[0])
    &&& forall|i: int| 0 < i < s.len() ==> word(#[trigger] s[i])
}

/// `word_end` is the end of a run of letters and digits, within the text.
pub proof fn lemma_word_end(s: Seq<char>, pos: int)
    requires
        0 <= pos <= s.len(),
    ensures
        pos <= word_end(s, pos) <= s.len(),
        forall|i: int| pos <= i < word_end(s, pos) ==> word(#[trigger] s[i]),
    decreases s.len() - pos,
{
    if pos < s.len() && word(s[pos]) {
        lemma_word_end(s, pos + 1);
    }
}

/// The characters that a name token spans are written as a name.
pub proof fn lemma_identifier_is_name(s: Seq<char>, pos: int)
    requires
        0 <= pos < s.len(),
        kind_at(s, pos) == TokenKind::Identifier,
    ensures
        is_name(s.subrange(pos, end_at(s, pos))),
{
    lemma_word_end(s, pos + 1);
    let lexeme = s.subrange(pos, end_at(s, pos));
    assert(lexeme[0] == s[pos]);
    assert forall|i: int| 0 < i < lexeme.len() implies word(#[trigger] lexeme[i]) by {
        assert(lexeme[i] == s[pos + i]);
    }
}

/// A token is not empty and lies within the text.
pub proof fn lemma_end_at(s: Seq<char>, pos: int)
    requires
        0 <= pos < s.len(),
    ensures
        pos < end_at(s, pos) <= s.len(),
{
    lemma_digits_end(s, pos);
    let whole = digits_end(s, pos);
    if whole + 1 < s.len() {
        lemma_digits_end(s, whole + 2);
    }
    lemma_word_end(s, pos + 1);
}

/// The characters that a literal token spans are written as a literal.
pub proof fn lemma_number_is_decimal(s: Seq<char>, pos: int)
    requires
        0 <= pos < s.len(),
        digit(s[pos]),
    ensures
        is_decimal(s.subrange(pos, number_end(s, pos))),
{
    lemma_end_at(s, pos);
    lemma_digits_end(s, pos);
    let whole = digits_end(s, pos);
    let end = number_end(s, pos);
    let lexeme = s.subrange(pos, end);
    let k = whole - pos;
    if end != whole {
        lemma_digits_end(s, whole + 2);
        assert forall|i: int| k + 1 <= i < lexeme.len() implies digit(#[trigger] lexeme[i]) by {
            assert(lexeme[i] == s[pos + i]);
            if pos + i > whole + 1 {
                assert(all_digits(s, whole + 2, end));
            }
        }
        assert(lexeme[k] == s[whole]);
    }
    assert forall|i: int| 0 <= i < k implies digit(#[trigger] lexeme[i]) by {
        assert(lexeme[i] == s[pos + i]);
    }
    assert(all_digits(lexeme, 0, k));
}

/// The tokens of `s` from `pos` on: spaces are skipped, and each token begins
/// where the one before it ended.
pub open spec fn tokens_from(s: Seq<char>, pos: int) -> Seq<Token>
    decreases s.len() - pos,
{
    let start = spaces_end(s, pos);
    if 0 <= pos <= start < s.len() {
        let end = end_at(s, start);
        proof {
            lemma_end_at(s, start);
        }
        seq![Token { kind: kind_at(s, start), start: #[verifier::truncate] (start as usize), end: #[verifier::truncate] (end as usize) }]
            + tokens_from(s, end)
    } else {
        Seq::empty()
    }
}

/// The tokens of a line.
pub open spec fn tokens(s: Seq<char>) -> Seq<Token> {
    tokens_from(s, 0)
}

/// The tokens lie within the text, none is empty, each literal token spans
/// characters that are written as a literal, and each name token characters
/// that are written as a name.
pub open spec fn well_placed(s: Seq<char>, ts: Seq<Token>) -> bool {
    forall|i: int|
        0 <= i < ts.len() ==> {
            let t = #[trigger] ts[i];
            &&& t.start < t.end <= s.len()
            &&& t.kind == TokenKind::Number ==> is_decimal(s.subrange(t.start as int, t.end as int))
            &&& t.kind == TokenKind::Identifier ==> is_name(s.subrange(t.start as int, t.end as int))
        }
}

/// The token that a single character stands for, if it is one by itself.
pub fn symbol_of(c: char) -> (r: Option<TokenKind>)
    ensures
        r == symbol(c),
{
    if c == '+' {
        Some(TokenKind::Plus)
    } else if c == '-' {
        Some(TokenKind::Minus)
    } else if c == '*' {
        Some(TokenKind::Star)
    } else if c == '/' {
        Some(TokenKind::Slash)
    } else if c == '%' {
        Some(TokenKind::Percent)
    } else if c == '^' {
        Some(TokenKind::Caret)
    } else if c == '!' {
        Some(TokenKind::Bang)
    } else if c == '=' {
        Some(TokenKind::Equals)
    } else if c == '(' {
        Some(TokenKind::LParen)
    } else if c == ')' {
        Some(TokenKind::RParen)
    } else {
        None
    }
}

fn scan_spaces(chars: &Vec<char>, from: usize) -> (end: usize)
    requires
        from <= chars.len(),
    ensures
        end == spaces_end(chars@, from as int),
        from <= end <= chars.len(),
{
    let mut i: usize = from;
    while i < chars.len() && is_space(chars[i])
        invariant
            from <= i <= chars.len(),
            spaces_end(chars@, from as int) == spaces_end(chars@, i as int),
        decreases chars.len() - i,
    {
        i = i + 1;
    }
    i
}

fn scan_word(chars: &Vec<char>, from: usize) -> (end: usize)
    requires
        from <= chars.len(),
    ensures
        end == word_end(chars@, from as int),
        from <= end <= chars.len(),
{
    let mut i: usize = from;
    while i < chars.len() && is_word(chars[i])
        invariant
            from <= i <= chars.len(),
            word_end(chars@, from as int) == word_end(chars@, i as int),
        decreases chars.len() - i,
    {
        i = i + 1;
    }
    i
}

fn scan_number(chars: &Vec<char>, from: usize) -> (end: usize)
    requires
        from <= chars.len(),
    ensures
        end == number_end(chars@, from as int),
        from <= end <= chars.len(),
{
    let whole = scan_digits(chars, from);
    if whole < chars.len() && chars[whole] == '.' && whole + 1 < chars.len() && is_digit(
        chars[whole + 1],
    ) {
        scan_digits(chars, whole + 2)
    } else {
        whole
    }
}

/// Splits a line into its tokens.
pub fn tokenize(chars: &Vec<char>) -> (ts: Vec<Token>)
    ensures
        ts@ == tokens(chars@),
        well_placed(chars@, ts@),
{
    let ghost s = chars@;
    let mut out: Vec<Token> = Vec::new();
    let ghost mut prev: int = 0;
    let mut pos: usize = scan_spaces(chars, 0);
    while pos < chars.len()
        invariant
            0 <= prev <= pos <= chars.len(),
            s == chars@,
            pos == spaces_end(s, prev),
            tokens(s) == out@ + tokens_from(s, prev),
            well_placed(s, out@),
        decreases chars.len() - pos,
    {
        let c = chars[pos];
        let kind: TokenKind;
        let end: usize;
        if is_digit(c) {
            kind = TokenKind::Number;
            end = scan_number(chars, pos);
        } else if let Some(k) = symbol_of(c) {
            kind = k;
            end = pos + 1;
        } else if is_letter(c) {
            kind = TokenKind::Identifier;
            end = scan_word(chars, pos + 1);
        } else {
            kind = TokenKind::Invalid;
            end = pos + 1;
        }
        let token = Token { kind, start: pos, end };
        proof {
            lemma_end_at(s, pos as int);
            if kind == TokenKind::Number {
                lemma_number_is_decimal(s, pos as int);
            }
            if kind == TokenKind::Identifier {
                lemma_identifier_is_name(s, pos as int);
            }
            assert(tokens_from(s, prev) == seq![token] + tokens_from(s, end as int));
            assert(out@.push(token) + tokens_from(s, end as int) =~= out@ + (seq![token]
                + tokens_from(s, end as int)));
            prev = end as int;
        }
        out.push(token);
        pos = scan_spaces(chars, end);
    }
    proof {
        assert(tokens_from(s, prev) =~= Seq::<Token>::empty());
        assert(out@ + Seq::<Token>::empty() =~= out@);
    }
    out
}

} // verus!
