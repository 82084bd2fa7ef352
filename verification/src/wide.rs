//! Texts in UTF-16, as the system's functions take them.

use vstd::prelude::*;
use vstd::utf8::char_is_scalar;

verus! {

/// The UTF-16 code units of a character: the character itself below
/// `0x10000`, and a pair of surrogates above.
pub open spec fn utf16_of(c: char) -> Seq<u16> {
    let v = c as u32;
    if v < 0x10000 {
        seq![v as u16]
    } else {
        let w = (v - 0x10000) as u32;
        seq![(0xD800 + (w >> 10)) as u16, (0xDC00 + (w & 0x3FF)) as u16]
    }
}

/// The UTF-16 code units of a text.
pub open spec fn utf16_units(text: Seq<char>) -> Seq<u16>
    decreases text.len(),
{
    if text.len() == 0 {
        Seq::empty()
    } else {
        utf16_units(text.drop_last()) + utf16_of(text.last())
    }
}

/// The text in UTF-16 with a zero at its end.
pub fn to_wide_string(s: &str) -> (wide: Vec<u16>)
    ensures
        wide@ == utf16_units(s@).push(0),
{
    let mut wide: Vec<u16> = Vec::new();
    for c in it: s.chars()
        invariant
            it.seq() == s@,
            wide@ == utf16_units(s@.take(it.index() as int)),
    {
        proof {
            let seen = s@.take(it.index() + 1);
            assert(seen.drop_last() =~= s@.take(it.index() as int));
            assert(seen.last() == c);
        }
        proof {
            char_is_scalar(c);
        }
        let v = c as u32;
        if v < 0x10000 {
            wide.push(v as u16);
        } else {
            let w = v - 0x10000;
            assert(w <= 0xFFFFF ==> (w >> 10) <= 0x3FF && (w & 0x3FF) <= 0x3FF) by (bit_vector);
            let high = 0xD800 + (w >> 10);
            let low = 0xDC00 + (w & 0x3FF);
            wide.push(high as u16);
            wide.push(low as u16);
        }
        assert(wide@ =~= utf16_units(s@.take(it.index() as int)) + utf16_of(c));
    }
    assert(s@.take(s@.len() as int) =~= s@);
    wide.push(0);
    wide
}

} // verus!
