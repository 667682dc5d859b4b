use campus_auth::clock::{
    cutoff, cutoff_at, cutoff_str, date_of_day, now_str, unix_time, unix_time_of, LocalTime,
};
use campus_auth::common::{decode_body, prefer_utf8, urlencode};
use campus_auth::ipv4::Ipv4;
use campus_auth::text::{
    chars_of, cut_end_slashes, dec_text, is_space, is_tag_space, join_texts, parse_number, replace,
    same_ignoring_case, split_chars, trim_text,
};
use campus_auth::utf16::{
    bytes_of_units, cut_at_null, text_of_utf16, units_of_bytes, utf16_of, wide,
};

#[test]
fn blanks_are_those_of_unicode() {
    for n in 0..=0x10FFFFu32 {
        if let Some(c) = char::from_u32(n) {
            assert_eq!(is_space(c), c.is_whitespace(), "{n:x}");
        }
    }
    assert_eq!(trim_text("\u{3000} a b\u{a0}\n"), "a b");
    assert!(is_tag_space('\u{b}') && is_tag_space('\t') && !is_tag_space('\u{a0}'));
}

#[test]
fn texts_are_taken_apart_and_put_together() {
    let pieces = split_chars(&chars_of("a,,b"), &chars_of(","));
    let pieces: Vec<String> = pieces.iter().map(|p| p.iter().collect()).collect();
    assert_eq!(pieces, vec!["a", "", "b"]);
    let out: String = replace(&chars_of("a&amp;b&amp;"), &chars_of("&amp;"), &chars_of("&")).iter().collect();
    assert_eq!(out, "a&b&");
    let parts = vec!["a".to_string(), "b".to_string(), String::new()];
    assert_eq!(join_texts(&parts, ", "), "a, b, ");
    assert_eq!(join_texts(&Vec::new(), ", "), "");
    assert_eq!(cut_end_slashes("http://a/b//"), "http://a/b");
    assert_eq!(cut_end_slashes("//"), "");
    assert!(same_ignoring_case("AbÄ", "aBÄ") && !same_ignoring_case("Ä", "ä"));
}

#[test]
fn numbers_are_read_and_written() {
    assert_eq!(dec_text(0), "0");
    assert_eq!(dec_text(u64::MAX), "18446744073709551615");
    assert_eq!(parse_number(&chars_of("+65535"), 10, 65535), Some(65535));
    assert_eq!(parse_number(&chars_of("65536"), 10, 65535), None);
    assert_eq!(parse_number(&chars_of("fF"), 16, 1000), Some(255));
    assert_eq!(parse_number(&chars_of(""), 10, 9), None);
    assert_eq!(parse_number(&chars_of("+"), 10, 9), None);
    assert_eq!(parse_number(&chars_of("1a"), 10, 99), None);
}

#[test]
fn percent_encoding() {
    assert_eq!(urlencode("http://127.0.0.1:8081/"), "http%3A%2F%2F127.0.0.1%3A8081%2F");
    assert_eq!(urlencode("tomcat_server:80"), "tomcat_server%3A80");
    assert_eq!(urlencode("a b+~-._"), "a%20b%2B~-._");
    assert_eq!(urlencode("密"), "%E5%AF%86");
    assert_eq!(urlencode("a密 b"), format!("{}{}", urlencode("a密"), urlencode(" b")));
}

#[test]
fn bodies_are_utf8_or_gbk() {
    assert_eq!(decode_body("密码错误".as_bytes()), "密码错误");
    assert_eq!(decode_body(&[0xC3, 0xDC, 0xC2, 0xEB, 0xB4, 0xED, 0xCE, 0xF3]), "密码错误");
    assert_eq!(decode_body(b""), "");
    assert_eq!(decode_body(b"\xEF\xBB\xBFa"), "a");
    assert_eq!(prefer_utf8("u".to_string(), false, "g".to_string()), "u");
    assert_eq!(prefer_utf8("u".to_string(), true, "g".to_string()), "g");
}

#[test]
fn days_and_dates() {
    assert_eq!(date_of_day(0), (1970, 1, 1));
    assert_eq!(date_of_day(-1), (1969, 12, 31));
    assert_eq!(date_of_day(19782), (2024, 2, 29));
    assert_eq!(date_of_day(19783), (2024, 3, 1));
    assert_eq!(date_of_day(11016), (2000, 2, 29));
    assert_eq!(date_of_day(-25509), (1900, 2, 28));
    assert_eq!(date_of_day(-25508), (1900, 3, 1));
    assert_eq!(date_of_day(-719528), (0, 1, 1));
}

#[test]
fn cutoff_is_a_local_midnight() {
    // 2026-09-16 20:00:00 UTC is the 17th eight hours east of it.
    let now = 1789588800u64;
    assert_eq!(cutoff(0, now, 0), "2026-09-16 00:00:00");
    assert_eq!(cutoff(0, now, 8 * 3600), "2026-09-17 00:00:00");
    assert_eq!(cutoff(7, now, 8 * 3600), "2026-09-10 00:00:00");
    assert_eq!(cutoff(7, 0, -3600), "1969-12-24 00:00:00");
    assert_eq!(cutoff(719529, 0, 0), "-001-12-31 00:00:00");
    assert_eq!(cutoff_at(7, Some((now, 999)), 8 * 3600), "2026-09-10 00:00:00");
    assert_eq!(cutoff_at(1, None, 0), "1969-12-31 00:00:00");
    assert_eq!(cutoff_str(0, 0).len(), 19);
    // The clock stands after the start of 2024.
    assert!(cutoff_str(0, 0).as_str() >= "2024-01-01 00:00:00");
    assert!(cutoff_str(0, 0).as_str() < "3000-01-01 00:00:00");
    assert!(cutoff_str(7, 0) < cutoff_str(0, 0));
}

#[test]
fn moments_count_from_the_epoch() {
    let epoch = std::time::UNIX_EPOCH;
    let span = std::time::Duration::new(5, 7);
    assert_eq!(unix_time_of(epoch), Some((0, 0)));
    assert_eq!(unix_time_of(epoch + std::time::Duration::new(1789588800, 700)), Some((1789588800, 700)));
    assert_eq!(unix_time_of(epoch + span + span), Some((10, 14)));
    assert_eq!(unix_time_of(epoch - span), None);
    // The clock stands after the start of 2024.
    assert!(unix_time().unwrap().0 > 1704067200);
}

#[test]
fn stamps_order_as_time_does() {
    let t = LocalTime { year: 2026, month: 9, day: 6, hour: 7, minute: 8, second: 9 };
    assert_eq!(now_str(&t), "2026-09-06 07:08:09");
    let later = LocalTime { month: 10, day: 1, ..t };
    assert!(now_str(&t) < now_str(&later));
    assert!(now_str(&LocalTime { year: 999, ..later }) < now_str(&t));
}

#[test]
fn addresses_are_read_as_they_are_written() {
    let ip = Ipv4 { a: 10, b: 200, c: 0, d: 255 };
    assert_eq!(ip.text(), "10.200.0.255");
    assert_eq!(Ipv4::parse("10.200.0.255"), Some(ip));
    for bad in ["", "1.2.3", "1.2.3.4.5", "256.1.1.1", "01.2.3.4", "1..2.3", "+1.2.3.4", "1.2.3.4 ", "a.b.c.d"] {
        assert_eq!(Ipv4::parse(bad), None, "{bad}");
    }
    for n in 0..=255u8 {
        let ip = Ipv4 { a: n, b: 255 - n, c: 0, d: n };
        assert_eq!(Ipv4::parse(&ip.text()), Some(ip));
    }
}

#[test]
fn utf16_agrees_with_the_standard_library() {
    let text = "hello密码123\u{1F600}";
    let units: Vec<u16> = text.encode_utf16().collect();
    assert_eq!(utf16_of(text), units);
    assert_eq!(text_of_utf16(&units), text);
    let broken = [0xD83D, 0x41, 0xDE00, 0xD83D, 0xD83D, 0xDE00, 0xD800];
    assert_eq!(text_of_utf16(&broken), String::from_utf16_lossy(&broken));
    assert_eq!(wide("ab"), vec![97, 98, 0]);
    assert_eq!(cut_at_null(&[1, 2, 0, 3]), &[1, 2][..]);
    assert_eq!(cut_at_null(&[1, 2]), &[1, 2][..]);
    assert_eq!(bytes_of_units(&[0x1234, 0x00FF]), vec![0x34, 0x12, 0xFF, 0x00]);
    assert_eq!(units_of_bytes(&[0x34, 0x12, 0xFF, 0x00, 0x01]), vec![0x1234, 0x00FF]);
}
