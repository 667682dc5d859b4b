//! What a password looks like at rest: UTF-16 bytes, sealed by the operating system for
//! its user, in base64.
use base64::engine::general_purpose::STANDARD;
use base64::Engine;
use vstd::prelude::*;
use vstd::utf8::{char_is_scalar, char_u32_cast};
use crate::text::join2;
use crate::utf16::{
    before_null, byte_units, bytes_of_units, char_units, cut_at_null, law_units_come_back,
    law_utf16_comes_back, text_of_utf16, unit_bytes, units_of_bytes, utf16_text, utf16_units, wide,
};

verus! {

/// What is mixed into the sealing, so that other programs of the user do not open it by
/// chance.
pub const ENTROPY: &'static str = "HzxyCampusAuth::v1::dpapi-entropy";

// ---------------------------------------------------------------------------
// Base64
// ---------------------------------------------------------------------------

/// What `base64` makes of bytes with its standard engine.
pub uninterp spec fn base64_text(bytes: Seq<u8>) -> Seq<char>;

/// What `base64` reads in a text with its standard engine: bytes, or what is wrong.
pub uninterp spec fn base64_bytes(text: Seq<char>) -> Result<Seq<u8>, Seq<char>>;

/// Bytes few enough to be encoded: four characters for three bytes fit into memory.
pub open spec fn fits_encoder(len: nat) -> bool {
    len <= usize::MAX / 4
}

/// `base64::Engine::encode` with the standard engine: the bytes in base64, padded. The
/// text depends on the bytes alone, reads as those bytes again, and is empty only where
/// there are none. It panics where the length of the text overflows, which the bound rules
/// out.
#[verifier::external_body]
pub(crate) fn encode_base64(bytes: &[u8]) -> (r: String)
    requires
        fits_encoder(bytes@.len()),
    ensures
        r@ == base64_text(bytes@),
        base64_bytes(r@) is Ok && base64_bytes(r@)->Ok_0 == bytes@,
        bytes@.len() > 0 ==> r@.len() > 0,
{
    STANDARD.encode(bytes)
}

/// `base64::Engine::decode` with the standard engine: the bytes that a text in base64
/// stands for, or the words of the error. Both depend on the text alone.
#[verifier::external_body]
pub(crate) fn decode_base64(text: &str) -> (r: Result<Vec<u8>, String>)
    ensures
        match r {
            Ok(bytes) => base64_bytes(text@) is Ok && base64_bytes(text@)->Ok_0 == bytes@,
            Err(e) => base64_bytes(text@) is Err && base64_bytes(text@)->Err_0 == e@,
        },
{
    match STANDARD.decode(text) {
        Ok(bytes) => Ok(bytes),
        Err(e) => Err(e.to_string()),
    }
}

// ---------------------------------------------------------------------------
// Sealing
// ---------------------------------------------------------------------------

/// The bytes of a password that are sealed: UTF-16, with a null at the end.
pub open spec fn plain_bytes_of(plain: Seq<char>) -> Seq<u8> {
    unit_bytes(utf16_units(plain).push(0))
}

/// The password that opened bytes hold: UTF-16 up to the first null.
pub open spec fn password_in(bytes: Seq<u8>) -> Seq<char> {
    utf16_text(before_null(byte_units(bytes)))
}

/// A text without a null.
pub open spec fn has_no_null(text: Seq<char>) -> bool {
    forall|i: int| 0 <= i < text.len() ==> #[trigger] text[i] != '\0'
}

/// The bytes of a password that are sealed.
pub fn plain_bytes(plain: &str) -> (r: Vec<u8>)
    ensures
        r@ == plain_bytes_of(plain@),
{
    bytes_of_units(&wide(plain))
}

/// A sealed password as it is kept: what the operating system sealed, in base64. `None` is
/// a sealing that failed.
pub fn protect(sealed: Option<&[u8]>) -> (r: Result<String, String>)
    requires
        sealed matches Some(bytes) ==> fits_encoder(bytes@.len()),
    ensures
        match sealed {
            Some(bytes) => r matches Ok(text) && text@ == base64_text(bytes@) && base64_bytes(
                text@,
            ) is Ok && base64_bytes(text@)->Ok_0 == bytes@ && (bytes@.len() > 0 ==> text@.len() > 0),
            None => r matches Err(e) && e@ == "CryptProtectData 失败"@,
        },
{
    match sealed {
        Some(bytes) => Ok(encode_base64(bytes)),
        None => Err("CryptProtectData 失败".to_owned()),
    }
}

/// The sealed bytes of a password that was kept, for the operating system to open.
pub fn sealed_bytes(b64: &str) -> (r: Result<Vec<u8>, String>)
    ensures
        match base64_bytes(b64@) {
            Ok(bytes) => r matches Ok(v) && v@ == bytes,
            Err(e) => r matches Err(m) && m@ == "base64 解码失败: "@ + e,
        },
{
    match decode_base64(b64) {
        Ok(bytes) => Ok(bytes),
        Err(e) => Err(join2("base64 解码失败: ", &e)),
    }
}

/// The password in what the operating system opened. `None` is an opening that failed.
pub fn unprotect(opened: Option<&[u8]>) -> (r: Result<String, String>)
    ensures
        match opened {
            Some(bytes) => r matches Ok(text) && text@ == password_in(bytes@),
            None => r matches Err(e) && e@
                == "CryptUnprotectData 失败(可能换了 Windows 用户或系统)"@,
        },
{
    match opened {
        Some(bytes) => {
            let units = units_of_bytes(bytes);
            Ok(text_of_utf16(cut_at_null(&units)))
        },
        None => Err("CryptUnprotectData 失败(可能换了 Windows 用户或系统)".to_owned()),
    }
}

// ---------------------------------------------------------------------------
// Laws
// ---------------------------------------------------------------------------

/// The units of a text without a null hold none.
proof fn lemma_no_null(s: Seq<char>)
    requires
        forall|i: int| 0 <= i < s.len() ==> #[trigger] s[i] != '\0',
    ensures
        forall|i: int| 0 <= i < utf16_units(s).len() ==> #[trigger] utf16_units(s)[i] != 0,
    decreases s.len(),
{
    if s.len() > 0 {
        let rest = s.skip(1);
        assert forall|i: int| 0 <= i < rest.len() implies #[trigger] rest[i] != '\0' by {
            assert(rest[i] == s[i + 1]);
        }
        lemma_no_null(rest);
        let head = char_units(s[0]);
        char_is_scalar(s[0]);
        char_u32_cast(s[0], s[0] as u32);
        assert(s[0] as u32 != 0);
        assert forall|i: int| 0 <= i < head.len() implies #[trigger] head[i] != 0 by {}
        assert forall|i: int| 0 <= i < utf16_units(s).len() implies #[trigger] utf16_units(s)[i]
            != 0 by {
            if i < head.len() {
                assert(utf16_units(s)[i] == head[i]);
            } else {
                assert(utf16_units(s)[i] == utf16_units(rest)[i - head.len()]);
            }
        }
    }
}

/// Units without a null end at a null that follows them.
proof fn lemma_ends_at_null(u: Seq<u16>)
    requires
        forall|i: int| 0 <= i < u.len() ==> #[trigger] u[i] != 0,
    ensures
        before_null(u.push(0)) == u,
    decreases u.len(),
{
    if u.len() > 0 {
        let rest = u.skip(1);
        assert forall|i: int| 0 <= i < rest.len() implies #[trigger] rest[i] != 0 by {
            assert(rest[i] == u[i + 1]);
        }
        lemma_ends_at_null(rest);
        assert(u.push(0).skip(1) == rest.push(0));
        assert(u.push(0)[0] == u[0]);
        assert(u == seq![u[0]] + rest);
    }
}

/// A password without a null comes back from the bytes that are sealed.
pub proof fn law_password_comes_back(plain: Seq<char>)
    requires
        has_no_null(plain),
    ensures
        password_in(plain_bytes_of(plain)) == plain,
{
    lemma_no_null(plain);
    lemma_ends_at_null(utf16_units(plain));
    law_units_come_back(utf16_units(plain).push(0));
    law_utf16_comes_back(plain);
}

} // verus!
