//! Text-width estimates in half-width units: East-Asian wide and full-width
//! glyphs count two units, every other character one. Scaling units to
//! pixels by the font size is left to the caller.

use vstd::prelude::*;

verus! {

/// Is `u` a code point in one of the wide ranges (Hangul Jamo, CJK radicals
/// and symbols, kana, CJK ideographs and their extensions, Yi, Hangul
/// syllables, CJK compatibility forms, full-width forms and signs, emoji)?
pub open spec fn is_wide(u: u32) -> bool {
    ||| 0x1100 <= u <= 0x115F
    ||| 0x2E80 <= u <= 0x303E
    ||| 0x3041 <= u <= 0x33FF
    ||| 0x3400 <= u <= 0x4DBF
    ||| 0x4E00 <= u <= 0x9FFF
    ||| 0xA000 <= u <= 0xA4CF
    ||| 0xAC00 <= u <= 0xD7A3
    ||| 0xF900 <= u <= 0xFAFF
    ||| 0xFE30 <= u <= 0xFE4F
    ||| 0xFF00 <= u <= 0xFF60
    ||| 0xFFE0 <= u <= 0xFFE6
    ||| 0x1F300 <= u <= 0x1FAFF
    ||| 0x20000 <= u <= 0x3FFFD
}

pub open spec fn char_units(c: char) -> nat {
    if is_wide(c as u32) {
        2
    } else {
        1
    }
}

/// Half-width units of a whole string.
pub open spec fn text_units_spec(s: Seq<char>) -> nat
    decreases s.len(),
{
    if s.len() == 0 {
        0
    } else {
        text_units_spec(s.drop_last()) + char_units(s.last())
    }
}

/// Advance width of `c` in half-width units: 2 for wide glyphs, 1 otherwise.
pub fn char_width_units(c: char) -> (r: u32)
    ensures
        r == char_units(c),
{
    let u = c as u32;
    let wide = (0x1100 <= u && u <= 0x115F) || (0x2E80 <= u && u <= 0x303E) || (0x3041 <= u
        && u <= 0x33FF) || (0x3400 <= u && u <= 0x4DBF) || (0x4E00 <= u && u <= 0x9FFF) || (
    0xA000 <= u && u <= 0xA4CF) || (0xAC00 <= u && u <= 0xD7A3) || (0xF900 <= u && u <= 0xFAFF)
        || (0xFE30 <= u && u <= 0xFE4F) || (0xFF00 <= u && u <= 0xFF60) || (0xFFE0 <= u && u
        <= 0xFFE6) || (0x1F300 <= u && u <= 0x1FAFF) || (0x20000 <= u && u <= 0x3FFFD);
    if wide {
        2
    } else {
        1
    }
}

/// Half-width units of a line of text (the character widths summed). No
/// string holds more than `isize::MAX` bytes, so none more characters.
pub fn text_units(s: &str) -> (r: usize)
    requires
        s@.len() <= isize::MAX,
    ensures
        r == text_units_spec(s@),
{
    let mut total: usize = 0;
    broadcast use vstd::string::axiom_spec_iter;

    for c in it: s.chars()
        invariant
            it.seq() == s@,
            s@.len() <= isize::MAX,
            total == text_units_spec(s@.take(it.index() as int)),
            total <= 2 * it.index(),
    {
        let ghost i = it.index();
        assert(s@.take(i + 1).drop_last() =~= s@.take(i as int));
        total = total + char_width_units(c) as usize;
    }
    assert(s@.take(s@.len() as int) =~= s@);
    total
}

/// Text units never count fewer than the characters nor more than twice as
/// many.
pub proof fn law_units_between_length_and_double(s: Seq<char>)
    ensures
        s.len() <= text_units_spec(s) <= 2 * s.len(),
    decreases s.len(),
{
    if s.len() > 0 {
        law_units_between_length_and_double(s.drop_last());
    }
}

} // verus!
