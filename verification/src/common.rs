//! What the modules share: fixed addresses and texts, percent-encoding, and the text of
//! a response body.
use vstd::prelude::*;
use vstd::string::StringSliceAdditionalSpecFns;
use vstd::utf8::{decode_utf8, encode_utf8, valid_utf8};
use crate::text::{digit_value, lemma_encode_parts, starts_with};

verus! {

/// The portal's address.
pub const PORTAL_HOST: &'static str = "10.255.2.252";

/// The self-service page, where a device is taken offline by hand.
pub const SELF_SERVICE_URL: &'static str = "http://10.255.2.252/self/index.html#/Login";

/// The addresses that are probed, host and path, in order.
pub const PROBE_URLS: [(&'static str, &'static str); 3] = [
    ("www.msftconnecttest.com", "/connecttest.txt"),
    ("connect.rom.miui.com", "/generate_204"),
    ("www.baidu.com", "/"),
];

/// The user agent of a computer.
pub const UA_PC: &'static str = "Mozilla/5.0 (Windows NT 10.0; Win64; x64) AppleWebKit/537.36 (KHTML, like Gecko) Chrome/120.0.0.0 Safari/537.36";

/// The fields that a login form has in any case, each with the value it takes where the
/// page gives none.
pub const BASE_FORM_DEFAULTS: [(&'static str, &'static str); 9] = [
    ("scheme", "http"),
    ("serverIp", "tomcat_server:80"),
    ("hostIp", "http://127.0.0.1:8081/"),
    ("auth_type", "0"),
    ("isBindMac1", "0"),
    ("pageid", "-1"),
    ("templatetype", "1"),
    ("listbindmac", "0"),
    ("recordmac", "0"),
];

/// The words by which the portal says that the device's slot is taken.
pub const CONFLICT_KEYWORDS: [&'static str; 6] = ["已在线", "重复", "超限", "终端", "绑定", "占用"];

/// The words by which the portal says that the password is wrong.
pub const BADPASS_KEYWORDS: [&'static str; 1] = ["密码错误"];

// ---------------------------------------------------------------------------
// Percent-encoding
// ---------------------------------------------------------------------------

/// The bytes that percent-encoding leaves as they are.
pub open spec fn is_unreserved(b: u8) -> bool {
    ||| 65 <= b <= 90
    ||| 97 <= b <= 122
    ||| 48 <= b <= 57
    ||| b == 45
    ||| b == 95
    ||| b == 46
    ||| b == 126
}

/// The capital character of a digit below sixteen.
pub open spec fn upper_hex_digit(d: int) -> char {
    if d < 10 {
        (d + 48) as char
    } else {
        (d + 55) as char
    }
}

/// A byte in percent-encoding.
pub open spec fn percent_byte(b: u8) -> Seq<char> {
    if is_unreserved(b) {
        seq![b as char]
    } else {
        seq!['%', upper_hex_digit(b as int / 16), upper_hex_digit(b as int % 16)]
    }
}

/// Bytes in percent-encoding.
pub open spec fn percent_bytes(bytes: Seq<u8>) -> Seq<char>
    decreases bytes.len(),
{
    if bytes.len() == 0 {
        Seq::empty()
    } else {
        percent_bytes(bytes.drop_last()) + percent_byte(bytes.last())
    }
}

/// A text in percent-encoding: its UTF-8 bytes, one by one.
pub open spec fn percent_encoded(s: Seq<char>) -> Seq<char> {
    percent_bytes(encode_utf8(s))
}

/// The capital character of a digit below sixteen.
pub(crate) fn upper_hex(d: u8) -> (r: char)
    requires
        d < 16,
    ensures
        r == upper_hex_digit(d as int),
{
    if d < 10 {
        (d + 48) as char
    } else {
        (d + 55) as char
    }
}

/// The text in percent-encoding. A space becomes `%20`.
pub fn urlencode(s: &str) -> (r: String)
    ensures
        r@ == percent_encoded(s@),
{
    let bytes = s.as_bytes();
    let mut out = String::new();
    let mut i: usize = 0;
    while i < bytes.len()
        invariant
            i <= bytes@.len(),
            bytes@ == encode_utf8(s@),
            out@ == percent_bytes(bytes@.take(i as int)),
        decreases bytes@.len() - i,
    {
        let b = bytes[i];
        let ghost before = out@;
        assert(bytes@.take(i + 1).drop_last() == bytes@.take(i as int));
        if (65 <= b && b <= 90) || (97 <= b && b <= 122) || (48 <= b && b <= 57) || b == 45 || b
            == 95 || b == 46 || b == 126 {
            out.push(b as char);
        } else {
            out.push('%');
            out.push(upper_hex(b / 16));
            out.push(upper_hex(b % 16));
        }
        assert(out@ == before + percent_byte(b));
        i += 1;
    }
    assert(bytes@.take(bytes@.len() as int) == bytes@);
    out
}

/// The bytes that a text in percent-encoding stands for.
pub open spec fn percent_decoded(s: Seq<char>) -> Option<Seq<u8>>
    decreases s.len(),
{
    if s.len() == 0 {
        Some(Seq::empty())
    } else if s[0] == '%' {
        if s.len() < 3 {
            None
        } else {
            match (digit_value(s[1], 16), digit_value(s[2], 16), percent_decoded(s.skip(3))) {
                (Some(a), Some(b), Some(rest)) => Some(seq![(a * 16 + b) as u8] + rest),
                _ => None,
            }
        }
    } else if s[0] as u32 <= 127 {
        match percent_decoded(s.skip(1)) {
            Some(rest) => Some(seq![s[0] as u8] + rest),
            None => None,
        }
    } else {
        None
    }
}

/// One encoded byte in front of a text decodes to that byte in front of the rest.
proof fn lemma_decode_byte(b: u8, rest: Seq<char>)
    requires
        percent_decoded(rest) is Some,
    ensures
        percent_decoded(percent_byte(b) + rest) == Some(seq![b] + percent_decoded(rest)->0),
{
    let s = percent_byte(b) + rest;
    if is_unreserved(b) {
        assert(s.skip(1) == rest);
        assert((b as char) as u8 == b);
    } else {
        assert(s.skip(3) == rest);
        let (h, l) = (b as int / 16, b as int % 16);
        assert(digit_value(upper_hex_digit(h), 16) == Some(h));
        assert(digit_value(upper_hex_digit(l), 16) == Some(l));
        assert((h * 16 + l) as u8 == b);
    }
}

/// Encoded bytes in front of a text decode to those bytes in front of the rest.
proof fn lemma_decode_bytes(bytes: Seq<u8>, rest: Seq<char>)
    requires
        percent_decoded(rest) is Some,
    ensures
        percent_decoded(percent_bytes(bytes) + rest) == Some(bytes + percent_decoded(rest)->0),
    decreases bytes.len(),
{
    if bytes.len() == 0 {
        assert(percent_bytes(bytes) + rest == rest);
        assert(bytes + percent_decoded(rest)->0 == percent_decoded(rest)->0);
    } else {
        let tail = percent_byte(bytes.last()) + rest;
        lemma_decode_byte(bytes.last(), rest);
        lemma_decode_bytes(bytes.drop_last(), tail);
        assert(percent_bytes(bytes) + rest == percent_bytes(bytes.drop_last()) + tail);
        assert(bytes.drop_last() + (seq![bytes.last()] + percent_decoded(rest)->0) == bytes
            + percent_decoded(rest)->0);
    }
}

/// Percent-encoding loses nothing: decoding gives back the text's UTF-8 bytes.
pub proof fn law_percent_encoding_comes_back(s: Seq<char>)
    ensures
        percent_decoded(percent_encoded(s)) == Some(encode_utf8(s)),
{
    lemma_decode_bytes(encode_utf8(s), Seq::empty());
    assert(percent_bytes(encode_utf8(s)) + Seq::<char>::empty() == percent_encoded(s));
    assert(encode_utf8(s) + Seq::<u8>::empty() == encode_utf8(s));
}

/// Bytes, one after the other, are encoded one after the other.
proof fn lemma_percent_parts(a: Seq<u8>, b: Seq<u8>)
    ensures
        percent_bytes(a + b) == percent_bytes(a) + percent_bytes(b),
    decreases b.len(),
{
    if b.len() == 0 {
        assert(a + b == a);
        assert(percent_bytes(a) + percent_bytes(b) == percent_bytes(a));
    } else {
        assert((a + b).drop_last() == a + b.drop_last());
        assert((a + b).last() == b.last());
        lemma_percent_parts(a, b.drop_last());
        assert(percent_bytes(a) + percent_bytes(b.drop_last()) + percent_byte(b.last())
            == percent_bytes(a) + percent_bytes(b));
    }
}

/// Texts, one after the other, are encoded one after the other.
pub proof fn law_percent_encoding_of_parts(a: Seq<char>, b: Seq<char>)
    ensures
        percent_encoded(a + b) == percent_encoded(a) + percent_encoded(b),
{
    lemma_encode_parts(a, b);
    lemma_percent_parts(encode_utf8(a), encode_utf8(b));
}

/// Percent-encoding leaves nothing in a text that separates the fields of a form: every
/// character is an unreserved one, a percent sign or a hexadecimal digit.
pub proof fn law_percent_encoding_is_plain(s: Seq<char>, i: int)
    requires
        0 <= i < percent_encoded(s).len(),
    ensures
        percent_encoded(s)[i] == '%' || (percent_encoded(s)[i] as u32 <= 127 && is_unreserved(
            percent_encoded(s)[i] as u8,
        )),
{
    lemma_plain_bytes(encode_utf8(s), i);
}

/// Every character of percent-encoded bytes is an unreserved one or a percent sign.
proof fn lemma_plain_bytes(bytes: Seq<u8>, i: int)
    requires
        0 <= i < percent_bytes(bytes).len(),
    ensures
        percent_bytes(bytes)[i] == '%' || (percent_bytes(bytes)[i] as u32 <= 127 && is_unreserved(
            percent_bytes(bytes)[i] as u8,
        )),
    decreases bytes.len(),
{
    let head = percent_bytes(bytes.drop_last());
    if i < head.len() {
        lemma_plain_bytes(bytes.drop_last(), i);
    } else {
        assert(percent_bytes(bytes)[i] == percent_byte(bytes.last())[i - head.len()]);
    }
}

// ---------------------------------------------------------------------------
// The text of a body
// ---------------------------------------------------------------------------

/// A body of so many bytes fits the decoders' buffers.
pub open spec fn fits_decoder(len: nat) -> bool {
    len <= usize::MAX / 8
}

/// The bytes begin with the mark of UTF-16.
pub open spec fn marked_utf16(bytes: Seq<u8>) -> bool {
    starts_with(bytes, seq![0xffu8, 0xfeu8]) || starts_with(bytes, seq![0xfeu8, 0xffu8])
}

/// The bytes without the mark of UTF-8 at their start.
pub open spec fn without_mark(bytes: Seq<u8>) -> Seq<u8> {
    if starts_with(bytes, seq![0xefu8, 0xbbu8, 0xbfu8]) {
        bytes.skip(3)
    } else {
        bytes
    }
}

/// What `encoding_rs::UTF_8.decode` makes of bytes: the text, and whether parts of it had
/// to be replaced.
pub uninterp spec fn utf8_decoded(bytes: Seq<u8>) -> (Seq<char>, bool);

/// What `encoding_rs::GBK.decode` makes of bytes: the text.
pub uninterp spec fn gbk_decoded(bytes: Seq<u8>) -> Seq<char>;

/// `encoding_rs::UTF_8.decode`: the text of the bytes, and whether malformed parts of it
/// were replaced. A mark at the start selects the encoding and does not appear in the
/// text. Bytes without a mark of UTF-16 are malformed exactly where they are not valid
/// UTF-8, and valid UTF-8 gives the text it encodes. What replaces a malformed part, and
/// the text of bytes marked as UTF-16, are not stated.
#[verifier::external_body]
fn decode_utf8_marked(body: &[u8]) -> (r: (String, bool))
    requires
        fits_decoder(body@.len()),
    ensures
        (r.0@, r.1) == utf8_decoded(body@),
        !marked_utf16(body@) ==> r.1 == !valid_utf8(body@),
        valid_utf8(body@) ==> r.0@ == decode_utf8(without_mark(body@)),
{
    let (text, _, malformed) = encoding_rs::UTF_8.decode(body);
    (text.into_owned(), malformed)
}

/// `encoding_rs::GBK.decode`: the text of the bytes. Only that the same bytes give the
/// same text is stated.
#[verifier::external_body]
fn decode_gbk(body: &[u8]) -> (r: String)
    requires
        fits_decoder(body@.len()),
    ensures
        r@ == gbk_decoded(body@),
{
    encoding_rs::GBK.decode(body).0.into_owned()
}

/// The text of a body: as UTF-8, or as GBK where that is malformed.
pub open spec fn body_text(bytes: Seq<u8>) -> Seq<char> {
    if utf8_decoded(bytes).1 {
        gbk_decoded(bytes)
    } else {
        utf8_decoded(bytes).0
    }
}

/// Of the two readings of a body, the one as UTF-8 unless that was malformed.
pub fn prefer_utf8(utf8: String, malformed: bool, gbk: String) -> (r: String)
    ensures
        r@ == (if malformed {
            gbk@
        } else {
            utf8@
        }),
{
    if malformed {
        gbk
    } else {
        utf8
    }
}

/// The text of a body: as UTF-8, or as GBK where that is malformed.
pub fn decode_body(body: &[u8]) -> (r: String)
    requires
        fits_decoder(body@.len()),
    ensures
        r@ == body_text(body@),
        valid_utf8(body@) ==> r@ == decode_utf8(without_mark(body@)),
        !valid_utf8(body@) && !marked_utf16(body@) ==> r@ == gbk_decoded(body@),
{
    let (text, malformed) = decode_utf8_marked(body);
    proof {
        if valid_utf8(body@) && marked_utf16(body@) {
            assert(body@[0] == 0xff || body@[0] == 0xfe) by {
                if starts_with(body@, seq![0xffu8, 0xfeu8]) {
                    assert(body@.subrange(0, 2)[0] == 0xffu8);
                } else {
                    assert(body@.subrange(0, 2)[0] == 0xfeu8);
                }
            }
            assert(false);
        }
    }
    let gbk = if malformed {
        decode_gbk(body)
    } else {
        String::new()
    };
    prefer_utf8(text, malformed, gbk)
}

} // verus!
