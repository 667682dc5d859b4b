use campus_auth::crypto::{plain_bytes, protect, sealed_bytes, unprotect, ENTROPY};

/// Stands in for the sealing of the operating system, which undoes itself here.
fn mix(bytes: &[u8]) -> Vec<u8> {
    bytes.iter().zip(ENTROPY.bytes().cycle()).map(|(a, b)| a ^ b).collect()
}

#[test]
fn roundtrip() {
    let enc = protect(Some(&mix(&plain_bytes("hello密码123")))).unwrap();
    assert!(!enc.contains("hello"));
    assert_eq!(unprotect(Some(&mix(&sealed_bytes(&enc).unwrap()))).unwrap(), "hello密码123");
}

#[test]
fn sealing_that_fails() {
    assert_eq!(protect(None).unwrap_err(), "CryptProtectData 失败");
    assert_eq!(
        unprotect(None).unwrap_err(),
        "CryptUnprotectData 失败(可能换了 Windows 用户或系统)"
    );
    assert!(sealed_bytes("***").unwrap_err().starts_with("base64 解码失败: "));
}

#[test]
fn sealed_text_is_base64() {
    assert_eq!(protect(Some(b"hello world~")).unwrap(), "aGVsbG8gd29ybGR+");
    assert_eq!(protect(Some(b"a")).unwrap(), "YQ==");
    assert_eq!(protect(Some(b"")).unwrap(), "");
    assert_eq!(sealed_bytes("aGVsbG8gd29ybGR+").unwrap(), b"hello world~");
}

#[test]
fn opened_text_ends_at_a_null() {
    assert_eq!(plain_bytes("ab"), vec![97, 0, 98, 0, 0, 0]);
    assert_eq!(unprotect(Some(&[97, 0, 0, 0, 98, 0])).unwrap(), "a");
    assert_eq!(unprotect(Some(&[97, 0, 98])).unwrap(), "a");
    assert_eq!(unprotect(Some(&[])).unwrap(), "");
}
