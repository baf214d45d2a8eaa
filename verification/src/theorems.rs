//! Statements about the language as a whole.

use crate::ast::ExprView;
use crate::chars::{digit, space};
use crate::completeness::lemma_statement_complete;
use crate::derivation::is_statement;
use crate::grammar::{
    additive, additive_tail, lexeme, multiplicative, multiplicative_tail, parsed, postfix,
    postfix_tail, power, primary, sentence, statement, unary, SyntaxError,
};
use crate::literal::{all_digits, is_decimal, lemma_digits_end_unique};
use crate::semantics::{semantics, Arithmetic, Bindings, RequestView};
use crate::soundness::lemma_statement_sound;
use crate::token::{end_at, kind_at, number_end, spaces_end, tokens, tokens_from, Token, TokenKind};
use vstd::prelude::*;

verus! {

/// A line that is nothing but a numeric literal has one token, which spans
/// the line.
pub proof fn lemma_literal_is_one_token(text: Seq<char>)
    requires
        is_decimal(text),
        text.len() <= usize::MAX,
    ensures
        tokens(text) == seq![Token { kind: TokenKind::Number, start: 0, end: text.len() as usize }],
{
    let len = text.len() as int;
    let k = choose|k: int|
        1 <= k <= text.len() && #[trigger] all_digits(text, 0, k) && (k == text.len() || (text[k]
            == '.' && k + 1 < text.len() && all_digits(text, k + 1, text.len() as int)));
    assert(digit(text[0]));
    assert(!space(text[0]));
    assert(spaces_end(text, 0) == 0);
    lemma_digits_end_unique(text, 0, k);
    if k < len {
        assert(digit(text[k + 1]));
        assert(all_digits(text, k + 2, len));
        lemma_digits_end_unique(text, k + 2, len);
    }
    assert(number_end(text, 0) == len);
    assert(kind_at(text, 0) == TokenKind::Number);
    assert(end_at(text, 0) == len);
    assert(spaces_end(text, len) == len);
    assert(tokens_from(text, len) =~= Seq::<Token>::empty());
    assert(tokens(text) =~= seq![
        Token { kind: TokenKind::Number, start: 0, end: text.len() as usize },
    ]);
}

/// A numeric literal is a statement by itself, and the tree of that
/// statement is the literal.
pub proof fn lemma_literal_parses(text: Seq<char>)
    requires
        is_decimal(text),
        text.len() <= usize::MAX,
    ensures
        parsed(text) == Ok::<ExprView, SyntaxError>(ExprView::Number(text)),
{
    lemma_literal_is_one_token(text);
    let ts = tokens(text);
    let tree = ExprView::Number(text);
    assert(lexeme(text, ts[0]) =~= text);
    assert(primary(text, ts, 0) == Ok::<(ExprView, int), SyntaxError>((tree, 1)));
    assert(postfix_tail(ts, 1, tree) == (tree, 1int));
    assert(postfix(text, ts, 0) == Ok::<(ExprView, int), SyntaxError>((tree, 1)));
    assert(unary(text, ts, 0) == Ok::<(ExprView, int), SyntaxError>((tree, 1)));
    assert(power(text, ts, 0) == Ok::<(ExprView, int), SyntaxError>((tree, 1)));
    assert(multiplicative_tail(text, ts, 1, tree) == Ok::<(ExprView, int), SyntaxError>((tree, 1)));
    assert(multiplicative(text, ts, 0) == Ok::<(ExprView, int), SyntaxError>((tree, 1)));
    assert(additive_tail(text, ts, 1, tree) == Ok::<(ExprView, int), SyntaxError>((tree, 1)));
    assert(additive(text, ts, 0) == Ok::<(ExprView, int), SyntaxError>((tree, 1)));
    assert(statement(text, ts, 0) == Ok::<(ExprView, int), SyntaxError>((tree, 1)));
    assert(sentence(text, ts) == Ok::<ExprView, SyntaxError>(tree));
}

/// Reading a numeric literal and evaluating what was read gives the number
/// that the literal is written for, and changes no binding.
pub proof fn lemma_literal_round_trip(text: Seq<char>, env: Bindings, arith: Arithmetic)
    requires
        is_decimal(text),
        text.len() <= usize::MAX,
    ensures
        parsed(text) is Ok,
        semantics(parsed(text)->Ok_0, env, arith) == (
            Ok::<crate::value::Value, crate::semantics::RuntimeErrorView>(
                arith(RequestView::Literal(text)),
            ),
            env,
        ),
{
    lemma_literal_parses(text);
}

/// The parser's grammar reads a line as a tree exactly where the tokens of
/// the line, all of them, are a statement with that tree.
pub proof fn theorem_parsed_iff_statement(text: Seq<char>, tree: ExprView)
    ensures
        parsed(text) == Ok::<ExprView, SyntaxError>(tree) <==> is_statement(
            text,
            tokens(text),
            0,
            tokens(text).len() as int,
            tree,
        ),
{
    let ts = tokens(text);
    lemma_statement_sound(text, ts, 0);
    if is_statement(text, ts, 0, ts.len() as int, tree) {
        lemma_statement_complete(text, ts, 0, ts.len() as int, tree);
    }
}

/// The grammar is not ambiguous: the tokens of a line are a statement with
/// one tree at most.
pub proof fn theorem_one_tree(text: Seq<char>, first: ExprView, second: ExprView)
    requires
        is_statement(text, tokens(text), 0, tokens(text).len() as int, first),
        is_statement(text, tokens(text), 0, tokens(text).len() as int, second),
    ensures
        first == second,
{
    theorem_parsed_iff_statement(text, first);
    theorem_parsed_iff_statement(text, second);
}

/// A line is refused exactly where its tokens are no statement at all.
pub proof fn theorem_refused_iff_no_statement(text: Seq<char>)
    ensures
        parsed(text) is Err <==> forall|tree: ExprView|
            !is_statement(text, tokens(text), 0, tokens(text).len() as int, tree),
{
    if let Ok(tree) = parsed(text) {
        theorem_parsed_iff_statement(text, tree);
    } else {
        assert forall|tree: ExprView|
            !is_statement(text, tokens(text), 0, tokens(text).len() as int, tree) by {
            theorem_parsed_iff_statement(text, tree);
        }
    }
}

} // verus!
