//! Texts as sequences of characters: lower case, and the order of two texts.

use vstd::prelude::*;
use vstd::string::StrSliceExecFns;
use vstd::string::StringSliceAdditionalSpecFns;
use vstd::utf8::encode_utf8_decode_utf8;

verus! {

/// The lower-case form of a text, as the standard library computes it.
pub uninterp spec fn lowercase_of(text: Seq<char>) -> Seq<char>;

/// `str::to_lowercase` of the standard library: the result is a function of
/// the characters of `text` alone, and `lowercase_of` is its name.
#[verifier::external_body]
pub(crate) fn to_lowercase(text: &str) -> (lower: String)
    ensures
        lower@ == lowercase_of(text@),
{
    text.to_lowercase()
}

/// A text without the white space at its start and at its end, as the
/// standard library takes it off.
pub uninterp spec fn trimmed(text: Seq<char>) -> Seq<char>;

/// `str::trim` of the standard library: the result is a function of the
/// characters of `text` alone, and `trimmed` is its name.
#[verifier::external_body]
pub(crate) fn trim(text: &str) -> (inner: &str)
    ensures
        inner@ == trimmed(text@),
{
    text.trim()
}

/// The number that a text spells in decimal, as the standard library reads
/// a 32-bit integer; none where it reads none.
pub uninterp spec fn parsed_i32(text: Seq<char>) -> Option<i32>;

/// `str::parse` of the standard library, for `i32`, its error dropped: the
/// result is a function of the characters of `text` alone, and `parsed_i32`
/// is its name.
#[verifier::external_body]
pub(crate) fn parse_i32(text: &str) -> (number: Option<i32>)
    ensures
        number == parsed_i32(text@),
{
    text.parse::<i32>().ok()
}

/// The characters of a text, in order.
pub fn chars_of(text: &str) -> (chars: Vec<char>)
    ensures
        chars@ == text@,
{
    let mut chars: Vec<char> = Vec::new();
    for c in it: text.chars()
        invariant
            chars@ == it.seq().take(it.index() as int),
    {
        chars.push(c);
    }
    chars
}

/// Whether two texts hold the same characters.
pub fn same_text(a: &str, b: &str) -> (same: bool)
    ensures
        same == (a@ == b@),
{
    let x = a.as_bytes();
    let y = b.as_bytes();
    proof {
        encode_utf8_decode_utf8(a@);
        encode_utf8_decode_utf8(b@);
    }
    if x.len() != y.len() {
        return false;
    }
    let mut i: usize = 0;
    while i < x.len()
        invariant
            i <= x@.len(),
            x@.len() == y@.len(),
            x@ == a.spec_bytes(),
            y@ == b.spec_bytes(),
            forall|k: int| 0 <= k < i ==> x@[k] == y@[k],
        decreases x@.len() - i,
    {
        if x[i] != y[i] {
            assert(x@[i as int] != y@[i as int]);
            return false;
        }
        i += 1;
    }
    assert(x@ =~= y@);
    true
}

/// `text` starts with the characters of `prefix`.
pub open spec fn begins_with(text: Seq<char>, prefix: Seq<char>) -> bool {
    prefix.len() <= text.len() && text.subrange(0, prefix.len() as int) == prefix
}

/// The characters of `part` stand in `text` at position `at`, one after the
/// other.
pub open spec fn stands_at(part: Seq<char>, text: Seq<char>, at: int) -> bool {
    0 <= at && at + part.len() <= text.len() && text.subrange(at, at + part.len()) == part
}

/// The characters of `part` stand somewhere in `text`, one after the other.
pub open spec fn is_part_of(part: Seq<char>, text: Seq<char>) -> bool {
    exists|at: int| stands_at(part, text, at)
}

/// Whether `part` stands in `text` at position `at`.
fn stands_at_exec(part: &Vec<char>, text: &Vec<char>, at: usize) -> (stands: bool)
    requires
        at + part@.len() <= text@.len(),
    ensures
        stands == stands_at(part@, text@, at as int),
{
    let n = text.len();
    let mut k: usize = 0;
    while k < part.len()
        invariant
            k <= part@.len(),
            n == text@.len(),
            at + part@.len() <= n,
            forall|j: int| 0 <= j < k ==> text@[at + j] == part@[j],
        decreases part@.len() - k,
    {
        if text[at + k] != part[k] {
            assert(text@.subrange(at as int, at + part@.len())[k as int] != part@[k as int]);
            return false;
        }
        k += 1;
    }
    assert(text@.subrange(at as int, at + part@.len()) =~= part@);
    true
}

/// Whether `text` starts with `prefix`.
pub fn starts_with(text: &str, prefix: &str) -> (starts: bool)
    ensures
        starts == begins_with(text@, prefix@),
{
    let t = chars_of(text);
    let p = chars_of(prefix);
    if p.len() > t.len() {
        return false;
    }
    stands_at_exec(&p, &t, 0)
}

/// Whether `part` stands somewhere in `text`.
pub fn contains(text: &str, part: &str) -> (found: bool)
    ensures
        found == is_part_of(part@, text@),
{
    let t = chars_of(text);
    let p = chars_of(part);
    if p.len() > t.len() {
        assert forall|at: int| !stands_at(p@, t@, at) by {}
        return false;
    }
    let last = t.len() - p.len();
    let mut at: usize = 0;
    loop
        invariant
            at <= last,
            last == t@.len() - p@.len(),
            t@ == text@,
            p@ == part@,
            forall|k: int| 0 <= k < at ==> !stands_at(p@, t@, k),
        decreases last - at,
    {
        if stands_at_exec(&p, &t, at) {
            return true;
        }
        if at == last {
            return false;
        }
        at += 1;
    }
}

/// `text` without `prefix` at its start, if it starts with it.
pub fn strip_prefix<'a>(text: &'a str, prefix: &str) -> (rest: Option<&'a str>)
    ensures
        begins_with(text@, prefix@) ==> rest is Some && rest->0@ == text@.skip(prefix@.len() as int),
        !begins_with(text@, prefix@) ==> rest is None,
{
    if starts_with(text, prefix) {
        let from = prefix.unicode_len();
        let to = text.unicode_len();
        let rest = text.substring_char(from, to);
        assert(text@.subrange(from as int, to as int) =~= text@.skip(from as int));
        Some(rest)
    } else {
        None
    }
}

/// Whether `a` comes before `b` or equals it from position `from` on, when
/// texts are compared character by character, by code point; a text that ends
/// first comes first.
pub open spec fn ordered_from(a: Seq<char>, b: Seq<char>, from: int) -> bool
    decreases a.len() - from,
{
    if from >= a.len() {
        true
    } else if from >= b.len() {
        false
    } else if a[from] != b[from] {
        a[from] < b[from]
    } else {
        ordered_from(a, b, from + 1)
    }
}

/// Lexicographic order of two texts by code point: `a` comes before `b` or
/// equals it.
pub open spec fn text_le(a: Seq<char>, b: Seq<char>) -> bool {
    ordered_from(a, b, 0)
}

/// From `from` on, of two texts one comes before the other or equals it.
pub proof fn lemma_ordered_total(a: Seq<char>, b: Seq<char>, from: int)
    requires
        0 <= from,
    ensures
        ordered_from(a, b, from) || ordered_from(b, a, from),
    decreases a.len() - from,
{
    if from < a.len() && from < b.len() && a[from] == b[from] {
        lemma_ordered_total(a, b, from + 1);
    }
}

/// From `from` on, the order of texts is transitive.
pub proof fn lemma_ordered_transitive(a: Seq<char>, b: Seq<char>, c: Seq<char>, from: int)
    requires
        0 <= from,
        ordered_from(a, b, from),
        ordered_from(b, c, from),
    ensures
        ordered_from(a, c, from),
    decreases a.len() - from,
{
    if from < a.len() && a[from] == b[from] && b[from] == c[from] {
        lemma_ordered_transitive(a, b, c, from + 1);
    }
}

/// Two texts that come before each other from `from` on are equal from
/// there on.
pub proof fn lemma_ordered_both_ways(a: Seq<char>, b: Seq<char>, from: int)
    requires
        0 <= from,
        ordered_from(a, b, from),
        ordered_from(b, a, from),
    ensures
        a.len() == b.len() || (a.len() <= from && b.len() <= from),
        forall|k: int| from <= k < a.len() ==> a[k] == b[k],
    decreases a.len() - from,
{
    if from < a.len() {
        lemma_ordered_both_ways(a, b, from + 1);
    }
}

/// The order of texts is total.
pub proof fn lemma_text_le_total(a: Seq<char>, b: Seq<char>)
    ensures
        text_le(a, b) || text_le(b, a),
{
    lemma_ordered_total(a, b, 0);
}

/// The order of texts is transitive.
pub proof fn lemma_text_le_transitive(a: Seq<char>, b: Seq<char>, c: Seq<char>)
    requires
        text_le(a, b),
        text_le(b, c),
    ensures
        text_le(a, c),
{
    lemma_ordered_transitive(a, b, c, 0);
}

/// Two texts of which each comes before the other are one text.
pub proof fn lemma_text_le_antisymmetric(a: Seq<char>, b: Seq<char>)
    requires
        text_le(a, b),
        text_le(b, a),
    ensures
        a == b,
{
    lemma_ordered_both_ways(a, b, 0);
    assert(a =~= b);
}

/// Decides the order of two texts.
pub fn text_le_exec(a: &Vec<char>, b: &Vec<char>) -> (le: bool)
    ensures
        le == text_le(a@, b@),
{
    let mut i: usize = 0;
    while i < a.len() && i < b.len()
        invariant
            i <= a.len(),
            i <= b.len(),
            text_le(a@, b@) == ordered_from(a@, b@, i as int),
        decreases a.len() - i,
    {
        if a[i] != b[i] {
            return a[i] < b[i];
        }
        i += 1;
    }
    i >= a.len()
}

} // verus!
