//! The character classes that the lexical rules are built from.

use vstd::prelude::*;

verus! {

/// Whether `c` has the Unicode property Alphabetic, as the standard library's
/// tables have it.
pub uninterp spec fn alphabetic(c: char) -> bool;

/// `char::is_alphabetic` looks `c` up in the standard library's Unicode tables.
/// The answer depends on the character alone; the tables themselves are not
/// restated, the contract only gives the answer its name.
pub assume_specification[ char::is_alphabetic ](c: char) -> (b: bool)
    ensures
        b == alphabetic(c),
;

/// An ASCII decimal digit.
pub open spec fn digit(c: char) -> bool {
    '0' <= c && c <= '9'
}

/// A character that separates tokens and is otherwise ignored: the code
/// points with the Unicode property White_Space.
pub open spec fn space(c: char) -> bool {
    ||| '\u{9}' <= c && c <= '\u{d}'
    ||| c == ' '
    ||| c == '\u{85}'
    ||| c == '\u{a0}'
    ||| c == '\u{1680}'
    ||| '\u{2000}' <= c && c <= '\u{200a}'
    ||| c == '\u{2028}'
    ||| c == '\u{2029}'
    ||| c == '\u{202f}'
    ||| c == '\u{205f}'
    ||| c == '\u{3000}'
}

/// A character that may begin an identifier.
pub open spec fn letter(c: char) -> bool {
    alphabetic(c)
}

/// A character that may continue an identifier.
pub open spec fn word(c: char) -> bool {
    letter(c) || digit(c)
}

pub fn is_digit(c: char) -> (b: bool)
    ensures
        b == digit(c),
{
    '0' <= c && c <= '9'
}

pub fn is_space(c: char) -> (b: bool)
    ensures
        b == space(c),
{
    ('\u{9}' <= c && c <= '\u{d}') || c == ' ' || c == '\u{85}' || c == '\u{a0}' || c == '\u{1680}'
        || ('\u{2000}' <= c && c <= '\u{200a}') || c == '\u{2028}' || c == '\u{2029}' || c
        == '\u{202f}' || c == '\u{205f}' || c == '\u{3000}'
}

pub fn is_letter(c: char) -> (b: bool)
    ensures
        b == letter(c),
{
    c.is_alphabetic()
}

pub fn is_word(c: char) -> (b: bool)
    ensures
        b == word(c),
{
    is_letter(c) || is_digit(c)
}

/// The characters of `text`, one by one.
pub fn to_chars(text: &str) -> (chars: Vec<char>)
    ensures
        chars@ == text@,
{
    let mut chars: Vec<char> = Vec::new();
    for c in it: text.chars()
        invariant
            it.seq() == text@,
            chars@ == text@.take(it.index() as int),
    {
        chars.push(c);
    }
    chars
}

} // verus!
