//! UTF-16, as Windows uses it: to and from text, to and from bytes, and the end at the
//! first null.
use vstd::prelude::*;
use vstd::utf8::{char_is_scalar, char_u32_cast, is_scalar};
use crate::text::chars_of;

verus! {

/// `std::char::from_u32` gives the character with a number, and none exactly where no
/// character has that number.
pub assume_specification[ std::char::from_u32 ](i: u32) -> (r: Option<char>)
    ensures
        match r {
            Some(c) => c as u32 == i,
            None => !is_scalar(i),
        },
;

/// The first unit of a pair.
pub open spec fn is_lead(u: u16) -> bool {
    0xD800 <= u <= 0xDBFF
}

/// The second unit of a pair.
pub open spec fn is_trail(u: u16) -> bool {
    0xDC00 <= u <= 0xDFFF
}

/// The units of a character: one, or a pair.
pub open spec fn char_units(c: char) -> Seq<u16> {
    if (c as u32) < 0x10000 {
        seq![(c as u32) as u16]
    } else {
        let n = c as u32 - 0x10000;
        seq![(0xD800 + n / 0x400) as u16, (0xDC00 + n % 0x400) as u16]
    }
}

/// The units of a text.
pub open spec fn utf16_units(s: Seq<char>) -> Seq<u16>
    decreases s.len(),
{
    if s.len() == 0 {
        Seq::empty()
    } else {
        char_units(s[0]) + utf16_units(s.skip(1))
    }
}

/// The text of units. A unit of a pair that stands alone becomes a replacement character.
pub open spec fn utf16_text(u: Seq<u16>) -> Seq<char>
    decreases u.len(),
{
    if u.len() == 0 {
        Seq::empty()
    } else if !is_lead(u[0]) && !is_trail(u[0]) {
        seq![(u[0] as u32) as char] + utf16_text(u.skip(1))
    } else if is_lead(u[0]) && u.len() > 1 && is_trail(u[1]) {
        seq![((0x10000 + (u[0] - 0xD800) * 0x400 + (u[1] - 0xDC00)) as u32) as char] + utf16_text(
            u.skip(2),
        )
    } else {
        seq!['\u{FFFD}'] + utf16_text(u.skip(1))
    }
}

/// The units in front of the first null.
pub open spec fn before_null(u: Seq<u16>) -> Seq<u16>
    decreases u.len(),
{
    if u.len() == 0 || u[0] == 0 {
        Seq::empty()
    } else {
        seq![u[0]] + before_null(u.skip(1))
    }
}

/// The bytes of units, the low one first.
pub open spec fn unit_bytes(u: Seq<u16>) -> Seq<u8>
    decreases u.len(),
{
    if u.len() == 0 {
        Seq::empty()
    } else {
        seq![(u[0] % 256) as u8, (u[0] / 256) as u8] + unit_bytes(u.skip(1))
    }
}

/// The units of bytes, the low one first. A byte without a partner at the end is dropped.
pub open spec fn byte_units(b: Seq<u8>) -> Seq<u16>
    decreases b.len(),
{
    if b.len() < 2 {
        Seq::empty()
    } else {
        seq![(b[0] + 256 * b[1]) as u16] + byte_units(b.skip(2))
    }
}

/// The units of a text.
pub fn utf16_of(s: &str) -> (r: Vec<u16>)
    ensures
        r@ == utf16_units(s@),
{
    let chars = chars_of(s);
    let mut out: Vec<u16> = Vec::new();
    let mut i: usize = 0;
    assert(chars@.skip(0) == s@);
    assert(out@ + utf16_units(s@) == utf16_units(s@));
    while i < chars.len()
        invariant
            i <= chars@.len(),
            out@ + utf16_units(chars@.skip(i as int)) == utf16_units(s@),
        decreases chars@.len() - i,
    {
        let c = chars[i];
        let ghost before = out@;
        let ghost rest = chars@.skip(i as int);
        assert(rest[0] == c && rest.skip(1) == chars@.skip(i + 1));
        proof {
            char_is_scalar(c);
        }
        let n = c as u32;
        if n < 0x10000 {
            out.push(n as u16);
            assert(out@ == before + char_units(c));
        } else {
            assert(n <= 0x10FFFF);
            let m: u32 = n - 0x10000;
            assert(m / 0x400 < 0x400);
            out.push((0xD800 + m / 0x400) as u16);
            out.push((0xDC00 + m % 0x400) as u16);
            assert(out@ == before + char_units(c));
        }
        assert(before + (char_units(c) + utf16_units(rest.skip(1))) == before + char_units(c)
            + utf16_units(rest.skip(1)));
        i += 1;
    }
    assert(chars@.skip(i as int) == Seq::<char>::empty());
    assert(out@ + Seq::<u16>::empty() == out@);
    out
}

/// The units of a text, with a null at the end.
pub fn wide(s: &str) -> (r: Vec<u16>)
    ensures
        r@ == utf16_units(s@).push(0),
{
    let mut units = utf16_of(s);
    units.push(0);
    units
}

/// The text of units. A unit of a pair that stands alone becomes a replacement character.
pub fn text_of_utf16(units: &[u16]) -> (r: String)
    ensures
        r@ == utf16_text(units@),
{
    let mut out = String::new();
    let mut i: usize = 0;
    assert(units@.skip(0) == units@);
    assert(out@ + utf16_text(units@) == utf16_text(units@));
    while i < units.len()
        invariant
            i <= units@.len(),
            out@ + utf16_text(units@.skip(i as int)) == utf16_text(units@),
        decreases units@.len() - i,
    {
        let u = units[i];
        let ghost before = out@;
        let ghost rest = units@.skip(i as int);
        assert(rest[0] == u && rest.skip(1) == units@.skip(i + 1));
        if u < 0xD800 || u > 0xDFFF {
            assert(is_scalar(u as u32));
            if let Some(c) = std::char::from_u32(u as u32) {
                out.push(c);
                proof {
                    char_u32_cast(c, u as u32);
                }
                assert(before + (seq![c] + utf16_text(rest.skip(1))) == before.push(c)
                    + utf16_text(rest.skip(1)));
            }
            i += 1;
        } else if u <= 0xDBFF && i + 1 < units.len() && 0xDC00 <= units[i + 1] && units[i + 1]
            <= 0xDFFF {
            let n: u32 = 0x10000 + (u as u32 - 0xD800) * 0x400 + (units[i + 1] as u32 - 0xDC00);
            assert(rest[1] == units@[i + 1]);
            assert(rest.skip(2) == units@.skip(i + 2));
            assert(is_scalar(n));
            if let Some(c) = std::char::from_u32(n) {
                out.push(c);
                proof {
                    char_u32_cast(c, n);
                }
                assert(before + (seq![c] + utf16_text(rest.skip(2))) == before.push(c)
                    + utf16_text(rest.skip(2)));
            }
            i += 2;
        } else {
            proof {
                if i + 1 < units@.len() {
                    assert(rest[1] == units@[i + 1]);
                }
            }
            out.push('\u{FFFD}');
            assert(before + (seq!['\u{FFFD}'] + utf16_text(rest.skip(1))) == before.push('\u{FFFD}')
                + utf16_text(rest.skip(1)));
            i += 1;
        }
    }
    assert(units@.skip(i as int) == Seq::<u16>::empty());
    assert(out@ + Seq::<char>::empty() == out@);
    out
}

/// The units in front of the first null.
pub fn cut_at_null(units: &[u16]) -> (r: &[u16])
    ensures
        r@ == before_null(units@),
{
    let mut n: usize = 0;
    assert(units@.take(0) + before_null(units@.skip(0)) == before_null(units@)) by {
        assert(units@.skip(0) == units@);
        assert(units@.take(0) + before_null(units@) == before_null(units@));
    }
    while n < units.len() && units[n] != 0
        invariant
            n <= units@.len(),
            units@.take(n as int) + before_null(units@.skip(n as int)) == before_null(units@),
        decreases units@.len() - n,
    {
        proof {
            let rest = units@.skip(n as int);
            assert(rest[0] == units@[n as int] && rest.skip(1) == units@.skip(n + 1));
            assert(units@.take(n + 1) + before_null(rest.skip(1)) == units@.take(n as int) + (seq![
                rest[0],
            ] + before_null(rest.skip(1))));
        }
        n += 1;
    }
    let kept = &units[0..n];
    assert(before_null(units@.skip(n as int)) == Seq::<u16>::empty());
    assert(kept@ == units@.take(n as int) + Seq::<u16>::empty());
    kept
}

/// The bytes of units, the low one first.
pub fn bytes_of_units(units: &[u16]) -> (r: Vec<u8>)
    ensures
        r@ == unit_bytes(units@),
{
    let mut out: Vec<u8> = Vec::new();
    let mut i: usize = 0;
    assert(units@.skip(0) == units@);
    assert(out@ + unit_bytes(units@) == unit_bytes(units@));
    while i < units.len()
        invariant
            i <= units@.len(),
            out@ + unit_bytes(units@.skip(i as int)) == unit_bytes(units@),
        decreases units@.len() - i,
    {
        let u = units[i];
        let ghost before = out@;
        let ghost rest = units@.skip(i as int);
        assert(rest[0] == u && rest.skip(1) == units@.skip(i + 1));
        out.push((u % 256) as u8);
        out.push((u / 256) as u8);
        assert(before + (seq![(u % 256) as u8, (u / 256) as u8] + unit_bytes(rest.skip(1)))
            == out@ + unit_bytes(rest.skip(1)));
        i += 1;
    }
    assert(units@.skip(i as int) == Seq::<u16>::empty());
    assert(out@ + Seq::<u8>::empty() == out@);
    out
}

/// The units of bytes, the low one first. A byte without a partner at the end is dropped.
pub fn units_of_bytes(bytes: &[u8]) -> (r: Vec<u16>)
    ensures
        r@ == byte_units(bytes@),
{
    let mut out: Vec<u16> = Vec::new();
    let mut i: usize = 0;
    assert(bytes.len() == bytes@.len());
    assert(bytes@.skip(0) == bytes@);
    assert(out@ + byte_units(bytes@) == byte_units(bytes@));
    while i < bytes.len() && i + 1 < bytes.len()
        invariant
            i <= bytes@.len(),
            bytes@.len() == bytes.len(),
            out@ + byte_units(bytes@.skip(i as int)) == byte_units(bytes@),
        decreases bytes@.len() - i,
    {
        let ghost before = out@;
        let ghost rest = bytes@.skip(i as int);
        let unit: u16 = bytes[i] as u16 + 256 * bytes[i + 1] as u16;
        assert(rest[0] == bytes@[i as int] && rest[1] == bytes@[i + 1]);
        assert(rest.skip(2) == bytes@.skip(i + 2));
        out.push(unit);
        assert(before + (seq![unit] + byte_units(rest.skip(2))) == out@ + byte_units(rest.skip(2)));
        i += 2;
    }
    assert(byte_units(bytes@.skip(i as int)) == Seq::<u16>::empty());
    assert(out@ + Seq::<u16>::empty() == out@);
    out
}

/// What a character's units say in front of other units.
proof fn lemma_char_comes_back(c: char, rest: Seq<u16>)
    ensures
        utf16_text(char_units(c) + rest) == seq![c] + utf16_text(rest),
{
    let u = char_units(c) + rest;
    let n = c as u32;
    char_is_scalar(c);
    char_u32_cast(c, n);
    if n < 0x10000 {
        assert(u[0] == n as u16);
        assert((u[0] as u32) == n);
        assert(u.skip(1) == rest);
    } else {
        assert(n <= 0x10FFFF);
        let m = n - 0x10000;
        assert(0 <= m / 0x400 < 0x400 && 0 <= m % 0x400 < 0x400);
        assert(u[0] == 0xD800 + m / 0x400 && u[1] == 0xDC00 + m % 0x400);
        assert(u.skip(2) == rest);
        assert(0x10000 + (u[0] - 0xD800) * 0x400 + (u[1] - 0xDC00) == n);
    }
}

/// UTF-16 loses nothing: the units of a text give back the text.
pub proof fn law_utf16_comes_back(s: Seq<char>)
    ensures
        utf16_text(utf16_units(s)) == s,
    decreases s.len(),
{
    if s.len() > 0 {
        lemma_char_comes_back(s[0], utf16_units(s.skip(1)));
        law_utf16_comes_back(s.skip(1));
        assert(s == seq![s[0]] + s.skip(1));
    }
}

/// The bytes of units give back the units.
pub proof fn law_units_come_back(u: Seq<u16>)
    ensures
        byte_units(unit_bytes(u)) == u,
    decreases u.len(),
{
    if u.len() > 0 {
        law_units_come_back(u.skip(1));
        assert(unit_bytes(u).skip(2) == unit_bytes(u.skip(1)));
        assert(u == seq![u[0]] + u.skip(1));
    }
}

} // verus!
