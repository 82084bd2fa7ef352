//! Telling a calculation from a search text.

use vstd::prelude::*;

verus! {

/// A sign of arithmetic, or a bracket.
pub open spec fn is_operator(c: char) -> bool {
    c == '+' || c == '-' || c == '*' || c == '/' || c == '^' || c == '(' || c == ')'
}

/// One of the digits `0` to `9`.
pub open spec fn is_digit(c: char) -> bool {
    '0' <= c <= '9'
}

/// Some character of `text` is an operator.
pub open spec fn has_operator(text: Seq<char>) -> bool {
    exists|i: int| 0 <= i < text.len() && is_operator(#[trigger] text[i])
}

/// Some character of `text` is a digit.
pub open spec fn has_digit(text: Seq<char>) -> bool {
    exists|i: int| 0 <= i < text.len() && is_digit(#[trigger] text[i])
}

/// The first `k + 1` characters hold an operator if the first `k` do or the
/// next one is an operator, and likewise for a digit.
proof fn lemma_one_more(text: Seq<char>, k: int)
    requires
        0 <= k < text.len(),
    ensures
        has_operator(text.take(k + 1)) == (has_operator(text.take(k)) || is_operator(text[k])),
        has_digit(text.take(k + 1)) == (has_digit(text.take(k)) || is_digit(text[k])),
{
    let seen = text.take(k);
    let next = text.take(k + 1);
    assert(next[k] == text[k]);
    if has_operator(seen) {
        let i = choose|i: int| 0 <= i < seen.len() && is_operator(#[trigger] seen[i]);
        assert(is_operator(next[i]));
    }
    if has_operator(next) {
        let i = choose|i: int| 0 <= i < next.len() && is_operator(#[trigger] next[i]);
        if i < k {
            assert(is_operator(seen[i]));
        }
    }
    if has_digit(seen) {
        let i = choose|i: int| 0 <= i < seen.len() && is_digit(#[trigger] seen[i]);
        assert(is_digit(next[i]));
    }
    if has_digit(next) {
        let i = choose|i: int| 0 <= i < next.len() && is_digit(#[trigger] next[i]);
        if i < k {
            assert(is_digit(seen[i]));
        }
    }
}

/// Whether `text` looks like a calculation: it holds an operator and a
/// digit. A text of white space alone holds neither.
pub fn is_math_expression(text: &str) -> (looks_like_math: bool)
    ensures
        looks_like_math == (has_operator(text@) && has_digit(text@)),
{
    let mut operator = false;
    let mut digit = false;
    for c in it: text.chars()
        invariant
            it.seq() == text@,
            operator == has_operator(text@.take(it.index() as int)),
            digit == has_digit(text@.take(it.index() as int)),
    {
        proof {
            lemma_one_more(text@, it.index() as int);
        }
        if c == '+' || c == '-' || c == '*' || c == '/' || c == '^' || c == '(' || c == ')' {
            operator = true;
        }
        if '0' <= c && c <= '9' {
            digit = true;
        }
    }
    assert(text@.take(text@.len() as int) =~= text@);
    operator && digit
}

} // verus!
