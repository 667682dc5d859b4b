//! IPv4 addresses in dotted decimal notation.
use vstd::prelude::*;
use crate::text::{
    at_char, chars_of, dec, dec_text, digit, digits_value, first_stop, join3, lemma_first_stop,
    number, parse_number, same_chars, scan_to_char,
};

verus! {

/// An IPv4 address, octet by octet.
#[derive(Debug, Clone, Copy, PartialEq, Eq, Structural)]
pub struct Ipv4 {
    pub a: u8,
    pub b: u8,
    pub c: u8,
    pub d: u8,
}

/// The dotted decimal notation of an address.
pub open spec fn ip_text(ip: Ipv4) -> Seq<char> {
    dec(ip.a as nat) + "."@ + (dec(ip.b as nat) + "."@ + (dec(ip.c as nat) + "."@ + dec(
        ip.d as nat,
    )))
}

impl Ipv4 {
    /// The dotted decimal notation.
    pub fn text(&self) -> (r: String)
        ensures
            r@ == ip_text(*self),
    {
        let low = join3(&dec_text(self.c as u64), ".", &dec_text(self.d as u64));
        let mid = join3(&dec_text(self.b as u64), ".", &low);
        join3(&dec_text(self.a as u64), ".", &mid)
    }

    /// The address that a text denotes: four decimal octets with dots between them, none
    /// with a sign or a zero to spare.
    pub fn parse(s: &str) -> (r: Option<Self>)
        ensures
            match r {
                Some(ip) => s@ == ip_text(ip),
                None => forall|ip: Ipv4| #![trigger ip_text(ip)] s@ != ip_text(ip),
            },
    {
        let chars = chars_of(s);
        let (a, after_a) = match cut_octet(&chars) {
            Some(t) => t,
            None => {
                assert forall|ip: Ipv4| s@ != #[trigger] ip_text(ip) by {
                    assert(!begins_with_octet(s@, ip.a));
                }
                return None;
            },
        };
        let (b, after_b) = match cut_octet(after_a) {
            Some(t) => t,
            None => {
                assert forall|ip: Ipv4| s@ != #[trigger] ip_text(ip) by {
                    let rest = dec(ip.b as nat) + "."@ + (dec(ip.c as nat) + "."@ + dec(ip.d as nat));
                    if s@ == ip_text(ip) {
                        lemma_octet_is_unique(a, after_a@, ip.a, rest);
                        assert(!begins_with_octet(after_a@, ip.b));
                    }
                }
                return None;
            },
        };
        let (c, after_c) = match cut_octet(after_b) {
            Some(t) => t,
            None => {
                assert forall|ip: Ipv4| s@ != #[trigger] ip_text(ip) by {
                    let low = dec(ip.c as nat) + "."@ + dec(ip.d as nat);
                    if s@ == ip_text(ip) {
                        lemma_octet_is_unique(a, after_a@, ip.a, dec(ip.b as nat) + "."@ + low);
                        lemma_octet_is_unique(b, after_b@, ip.b, low);
                        assert(!begins_with_octet(after_b@, ip.c));
                    }
                }
                return None;
            },
        };
        match octet(after_c) {
            Some(d) => Some(Ipv4 { a, b, c, d }),
            None => {
                assert forall|ip: Ipv4| s@ != #[trigger] ip_text(ip) by {
                    let low = dec(ip.c as nat) + "."@ + dec(ip.d as nat);
                    if s@ == ip_text(ip) {
                        lemma_octet_is_unique(a, after_a@, ip.a, dec(ip.b as nat) + "."@ + low);
                        lemma_octet_is_unique(b, after_b@, ip.b, low);
                        lemma_octet_is_unique(c, after_c@, ip.c, dec(ip.d as nat));
                        assert(!is_octet(after_c@, ip.d));
                    }
                }
                None
            },
        }
    }
}

/// A text is the decimal notation of an octet.
pub open spec fn is_octet(s: Seq<char>, n: u8) -> bool {
    s == dec(n as nat)
}

/// A text begins with the decimal notation of an octet and a dot.
pub open spec fn begins_with_octet(s: Seq<char>, n: u8) -> bool {
    exists|rest: Seq<char>| s == #[trigger] (dec(n as nat) + "."@ + rest)
}

/// The decimal notation of a number is not empty, holds digits alone, and denotes it.
proof fn lemma_dec(n: nat)
    ensures
        dec(n).len() > 0,
        forall|i: int| 0 <= i < dec(n).len() ==> '0' <= #[trigger] dec(n)[i] && dec(n)[i] <= '9',
        digits_value(dec(n), 10) == Some(n as int),
    decreases n,
{
    if n < 10 {
        assert(dec(n).drop_last() == Seq::<char>::empty());
        assert(digits_value(dec(n).drop_last(), 10) == Some(0int));
        assert(dec(n).last() == digit(n as int));
    } else {
        lemma_dec(n / 10);
        assert(dec(n).drop_last() == dec(n / 10));
        assert(dec(n).last() == digit((n % 10) as int));
    }
}

/// The decimal notation of a number reads as that number.
proof fn lemma_number_of_dec(n: nat)
    ensures
        number(dec(n), 10) == Some(n as int),
{
    lemma_dec(n);
    assert(dec(n)[0] != '+');
}

/// The octet in front of a dot ends at the first dot.
proof fn lemma_octet_ends_at_dot(n: u8, rest: Seq<char>)
    ensures
        ({
            let s = dec(n as nat) + "."@ + rest;
            let dot = first_stop(s, 0, at_char('.'));
            &&& dot == dec(n as nat).len()
            &&& dot < s.len()
            &&& s.take(dot) == dec(n as nat)
            &&& s.skip(dot + 1) == rest
        }),
{
    reveal_strlit(".");
    lemma_dec(n as nat);
    let digits = dec(n as nat);
    let s = digits + "."@ + rest;
    let dot = first_stop(s, 0, at_char('.'));
    lemma_first_stop(s, 0, at_char('.'));
    assert(s[digits.len() as int] == '.');
    if dot < digits.len() {
        assert(s[dot] == digits[dot]);
    }
    assert(s.take(dot) == digits);
    assert(s.skip(dot + 1) == rest);
}

/// A text begins with one octet and a dot at most.
proof fn lemma_octet_is_unique(n: u8, r1: Seq<char>, m: u8, r2: Seq<char>)
    requires
        dec(n as nat) + "."@ + r1 == dec(m as nat) + "."@ + r2,
    ensures
        n == m,
        r1 == r2,
{
    lemma_octet_ends_at_dot(n, r1);
    lemma_octet_ends_at_dot(m, r2);
    lemma_dec(n as nat);
    lemma_dec(m as nat);
}

/// The octet that a text is the decimal notation of.
fn octet(s: &[char]) -> (r: Option<u8>)
    ensures
        match r {
            Some(n) => is_octet(s@, n),
            None => forall|n: u8| !#[trigger] is_octet(s@, n),
        },
{
    if let Some(n) = parse_number(s, 10, 255) {
        if same_chars(s, &chars_of(&dec_text(n))) {
            return Some(n as u8);
        }
        assert forall|m: u8| !#[trigger] is_octet(s@, m) by {
            lemma_number_of_dec(m as nat);
        }
        return None;
    }
    assert forall|m: u8| !#[trigger] is_octet(s@, m) by {
        lemma_number_of_dec(m as nat);
    }
    None
}

/// The octet in front of the first dot, and what follows the dot.
fn cut_octet(s: &[char]) -> (r: Option<(u8, &[char])>)
    ensures
        match r {
            Some((n, rest)) => s@ == dec(n as nat) + "."@ + rest@,
            None => forall|n: u8| !#[trigger] begins_with_octet(s@, n),
        },
{
    proof {
        reveal_strlit(".");
    }
    let dot = scan_to_char(s, 0, '.');
    if dot < s.len() {
        let head = &s[0..dot];
        let rest = &s[dot + 1..s.len()];
        assert(head@ == s@.take(dot as int));
        assert(rest@ == s@.skip(dot + 1));
        assert(s@[dot as int] == '.') by {
            lemma_first_stop(s@, 0, at_char('.'));
        }
        if let Some(n) = octet(head) {
            assert(s@ == head@ + "."@ + rest@);
            return Some((n, rest));
        }
        assert forall|n: u8| !#[trigger] begins_with_octet(s@, n) by {
            if begins_with_octet(s@, n) {
                let tail = choose|tail: Seq<char>| s@ == #[trigger] (dec(n as nat) + "."@ + tail);
                lemma_octet_ends_at_dot(n, tail);
                assert(is_octet(head@, n));
            }
        }
        return None;
    }
    assert forall|n: u8| !#[trigger] begins_with_octet(s@, n) by {
        if begins_with_octet(s@, n) {
            let tail = choose|tail: Seq<char>| s@ == #[trigger] (dec(n as nat) + "."@ + tail);
            lemma_octet_ends_at_dot(n, tail);
        }
    }
    None
}

/// Different addresses have different notations: what `text` writes, `parse` reads back.
pub proof fn law_notation_is_unique(x: Ipv4, y: Ipv4)
    requires
        ip_text(x) == ip_text(y),
    ensures
        x == y,
{
    let (low_x, low_y) = (
        dec(x.c as nat) + "."@ + dec(x.d as nat),
        dec(y.c as nat) + "."@ + dec(y.d as nat),
    );
    lemma_octet_is_unique(
        x.a,
        dec(x.b as nat) + "."@ + low_x,
        y.a,
        dec(y.b as nat) + "."@ + low_y,
    );
    lemma_octet_is_unique(x.b, low_x, y.b, low_y);
    lemma_octet_is_unique(x.c, dec(x.d as nat), y.c, dec(y.d as nat));
    lemma_dec(x.d as nat);
    lemma_dec(y.d as nat);
}

} // verus!
