//! Numeric literals: ASCII digits with an optional decimal point between them.

use crate::chars::{digit, is_digit, to_chars};
use vstd::prelude::*;

verus! {

/// Every character of `s` from `from` up to `to` is a digit.
pub open spec fn all_digits(s: Seq<char>, from: int, to: int) -> bool {
    forall|i: int| from <= i < to ==> digit(#[trigger] s[i])
}

/// `s` is written as a numeric literal: one or more digits, optionally
/// followed by a point and one or more digits.
pub open spec fn is_decimal(s: Seq<char>) -> bool {
    exists|k: int|
        1 <= k <= s.len() && #[trigger] all_digits(s, 0, k) && (k == s.len() || (s[k] == '.' && k
            + 1 < s.len() && all_digits(s, k + 1, s.len() as int)))
}

/// Where the run of digits that begins at `pos` ends: the first position from
/// `pos` on that holds no digit.
pub open spec fn digits_end(s: Seq<char>, pos: int) -> int
    decreases s.len() - pos,
{
    if 0 <= pos < s.len() && digit(s[pos]) {
        digits_end(s, pos + 1)
    } else {
        pos
    }
}

/// `digits_end` is the end of a run of digits that cannot be extended.
pub proof fn lemma_digits_end(s: Seq<char>, pos: int)
    requires
        0 <= pos <= s.len(),
    ensures
        pos <= digits_end(s, pos) <= s.len(),
        all_digits(s, pos, digits_end(s, pos)),
        digits_end(s, pos) == s.len() || !digit(s[digits_end(s, pos)]),
    decreases s.len() - pos,
{
    if pos < s.len() && digit(s[pos]) {
        lemma_digits_end(s, pos + 1);
    }
}

/// A run of digits that cannot be extended ends where `digits_end` says.
pub proof fn lemma_digits_end_unique(s: Seq<char>, pos: int, end: int)
    requires
        0 <= pos <= end <= s.len(),
        all_digits(s, pos, end),
        end == s.len() || !digit(s[end]),
    ensures
        digits_end(s, pos) == end,
    decreases end - pos,
{
    if pos < end {
        assert(digit(s[pos]));
        lemma_digits_end_unique(s, pos + 1, end);
    }
}

/// Scans the run of digits that begins at `from`.
pub fn scan_digits(chars: &Vec<char>, from: usize) -> (end: usize)
    requires
        from <= chars.len(),
    ensures
        end == digits_end(chars@, from as int),
        from <= end <= chars.len(),
{
    let mut i: usize = from;
    while i < chars.len() && is_digit(chars[i])
        invariant
            from <= i <= chars.len(),
            digits_end(chars@, from as int) == digits_end(chars@, i as int),
        decreases chars.len() - i,
    {
        i = i + 1;
    }
    i
}

/// Decides whether `chars` is written as a numeric literal.
pub fn reads_as_decimal(chars: &Vec<char>) -> (b: bool)
    ensures
        b == is_decimal(chars@),
{
    let n = chars.len();
    let k = scan_digits(chars, 0);
    let ghost s = chars@;
    proof {
        lemma_digits_end(s, 0);
        assert forall|j: int| 1 <= j <= s.len() && #[trigger] all_digits(s, 0, j) && (j == s.len()
            || s[j] == '.') implies j == k by {
            lemma_digits_end_unique(s, 0, j);
        }
    }
    if k == 0 {
        false
    } else if k == n {
        true
    } else if chars[k] == '.' && k + 1 < n {
        let m = scan_digits(chars, k + 1);
        proof {
            lemma_digits_end(s, k + 1);
            if m < n {
                assert(!all_digits(s, k + 1, s.len() as int));
            }
        }
        m == n
    } else {
        false
    }
}

/// A numeric literal, kept as it was written.
#[derive(Debug, PartialEq, Eq)]
pub struct Literal {
    text: String,
}

impl View for Literal {
    type V = Seq<char>;

    closed spec fn view(&self) -> Seq<char> {
        self.text@
    }
}

impl Clone for Literal {
    fn clone(&self) -> (r: Literal)
        ensures
            r@ == self@,
    {
        proof {
            use_type_invariant(self);
        }
        Literal { text: self.text.clone() }
    }
}

impl Literal {
    #[verifier::type_invariant]
    spec fn well_formed(self) -> bool {
        is_decimal(self.text@)
    }

    /// Takes `text` as a literal if it is written as one.
    pub fn new(text: &str) -> (r: Option<Literal>)
        ensures
            r is Some <==> is_decimal(text@),
            r matches Some(lit) ==> lit@ == text@,
    {
        let chars = to_chars(text);
        if reads_as_decimal(&chars) {
            Some(Literal { text: text.to_owned() })
        } else {
            None
        }
    }

    /// Takes as a literal a text that is written as one.
    pub(crate) fn from_decimal(text: &str) -> (lit: Literal)
        requires
            is_decimal(text@),
        ensures
            lit@ == text@,
    {
        Literal { text: text.to_owned() }
    }

    /// The literal as it was written.
    pub fn as_str(&self) -> (text: &str)
        ensures
            text@ == self@,
            is_decimal(text@),
    {
        proof {
            use_type_invariant(self);
        }
        self.text.as_str()
    }
}

} // verus!
