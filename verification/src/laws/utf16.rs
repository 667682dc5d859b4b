//! UTF-16, as the operating system takes and gives it.
use vstd::prelude::*;
use crate::utf16::{
    before_null, byte_units, char_units, is_lead, is_trail, unit_bytes, utf16_text, utf16_units,
};

verus! {

/// A character below U+10000 is one unit, which is its number; any other is two, a leading
/// one with its upper ten bits and a trailing one with its lower ten.
pub proof fn law_character_has_its_units(c: char, s: Seq<char>)
    ensures
        (c as u32) < 0x10000 ==> char_units(c).len() == 1 && char_units(c)[0] == c as u32,
        (c as u32) >= 0x10000 ==> ({
            let u = char_units(c);
            &&& u.len() == 2
            &&& 0xD800 <= u[0] <= 0xDBFF
            &&& 0xDC00 <= u[1] <= 0xDFFF
            &&& (u[0] - 0xD800) * 0x400 + (u[1] - 0xDC00) + 0x10000 == c as u32
        }),
        utf16_units(seq![c] + s) == char_units(c) + utf16_units(s),
        utf16_units(Seq::empty()) == Seq::<u16>::empty(),
{
    assert((seq![c] + s).skip(1) =~= s);
    assert((seq![c] + s)[0] == c);
    if (c as u32) >= 0x10000 {
        let n = c as u32 - 0x10000;
        assert(n < 0x100000);
    }
}

/// A unit that stands for a character gives it; one without its other half gives the mark of
/// what could not be read.
pub proof fn law_unit_is_read(u: u16, rest: Seq<u16>)
    ensures
        u < 0xD800 || u > 0xDFFF ==> utf16_text(seq![u] + rest) == seq![u as u32 as char]
            + utf16_text(rest),
        0xDC00 <= u <= 0xDFFF ==> utf16_text(seq![u] + rest) == seq!['\u{FFFD}'] + utf16_text(rest),
        0xD800 <= u <= 0xDBFF && (rest.len() == 0 || rest[0] < 0xDC00 || rest[0] > 0xDFFF)
            ==> utf16_text(seq![u] + rest) == seq!['\u{FFFD}'] + utf16_text(rest),
{
    let s = seq![u] + rest;
    assert(s.skip(1) =~= rest);
    assert(s[0] == u);
    if rest.len() > 0 {
        assert(s[1] == rest[0]);
    }
}

/// Two halves give the character that they stand for.
pub proof fn law_two_halves_are_read(c: char, rest: Seq<u16>)
    requires
        (c as u32) >= 0x10000,
    ensures
        utf16_text(char_units(c) + rest) == seq![c] + utf16_text(rest),
{
    let u = char_units(c);
    let s = u + rest;
    law_character_has_its_units(c, Seq::empty());
    assert(s.skip(2) =~= rest);
    assert(s[0] == u[0] && s[1] == u[1]);
    assert(is_lead(s[0]) && is_trail(s[1]));
    assert((0x10000 + (s[0] - 0xD800) * 0x400 + (s[1] - 0xDC00)) as u32 as char == c);
}

/// A unit is written with its lower byte first, and read so.
pub proof fn law_lower_byte_comes_first(u: u16, low: u8, high: u8, rest: Seq<u16>, more: Seq<u8>)
    requires
        u == low + 256 * high,
    ensures
        unit_bytes(seq![u] + rest) == seq![low, high] + unit_bytes(rest),
        byte_units(seq![low, high] + more) == seq![u] + byte_units(more),
        byte_units(seq![low]) == Seq::<u16>::empty(),
        unit_bytes(Seq::empty()) == Seq::<u8>::empty(),
        byte_units(Seq::empty()) == Seq::<u16>::empty(),
{
    let s = seq![u] + rest;
    assert(s.skip(1) =~= rest);
    assert(s[0] == u);
    assert(u % 256 == low && u / 256 == high);
    let b = seq![low, high] + more;
    assert(b.skip(2) =~= more);
    assert(b[0] == low && b[1] == high);
}

/// A text ends before the first null, whatever follows it.
pub proof fn law_text_ends_before_the_null(text: Seq<u16>, rest: Seq<u16>)
    requires
        forall|i: int| 0 <= i < text.len() ==> #[trigger] text[i] != 0,
    ensures
        before_null(text + seq![0u16] + rest) == text,
        before_null(text) == text,
    decreases text.len(),
{
    let s = text + seq![0u16] + rest;
    if text.len() > 0 {
        let tail = text.skip(1);
        assert forall|i: int| 0 <= i < tail.len() implies #[trigger] tail[i] != 0 by {
            assert(tail[i] == text[i + 1]);
        }
        law_text_ends_before_the_null(tail, rest);
        assert(s.skip(1) =~= tail + seq![0u16] + rest);
        assert(s[0] == text[0]);
        assert(seq![text[0]] + tail =~= text);
    } else {
        assert(s[0] == 0);
        assert(before_null(s) =~= text);
    }
}

} // verus!
