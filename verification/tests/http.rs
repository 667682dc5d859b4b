use campus_auth::http::{decode_chunked, parse_response, HttpClient, HttpResponse};
use campus_auth::ipv4::Ipv4;

fn pair(k: &str, v: &str) -> (String, String) {
    (k.to_string(), v.to_string())
}

#[test]
fn request_names_the_agent_once() {
    let client = HttpClient::new(Some(Ipv4 { a: 10, b: 200, c: 0, d: 9 }));
    assert_eq!(client.timeout_secs, 8);
    let out = client.request("GET", "http://h/p?q", &[pair("Accept", "*/*")], None).unwrap();
    assert_eq!(out.host, "h");
    assert_eq!(out.port, 80);
    assert_eq!(
        out.payload,
        "GET /p?q HTTP/1.1\r\nHost: h\r\nConnection: close\r\nAccept: */*\r\nUser-Agent: rust-auth/1.0\r\n\r\n"
    );
    let out = client
        .request("POST", "http://h:8080", &[pair("user-AGENT", "X"), pair("A", "b")], Some("k=密"))
        .unwrap();
    assert_eq!(out.port, 8080);
    assert_eq!(
        out.payload,
        "POST / HTTP/1.1\r\nHost: h:8080\r\nConnection: close\r\nuser-AGENT: X\r\nA: b\r\nContent-Length: 5\r\n\r\nk=密"
    );
    assert_eq!(out.payload.to_ascii_lowercase().matches("user-agent:").count(), 1);
}

#[test]
fn odd_addresses() {
    let client = HttpClient::new(None);
    assert_eq!(client.request("GET", "https://h/", &[], None).unwrap_err(), "仅支持 http URL: https://h/");
    assert_eq!(client.request("GET", "h/x", &[], None).unwrap_err(), "仅支持 http URL: h/x");
    let out = client.request("GET", "http://h:99999/x", &[], None).unwrap();
    assert_eq!((out.host.as_str(), out.port), ("h", 80));
    let out = client.request("GET", "http://h:a/x", &[], None).unwrap();
    assert_eq!((out.host.as_str(), out.port), ("h:a", 80));
    let out = client.request("GET", "http://h:/x", &[], None).unwrap();
    assert_eq!((out.host.as_str(), out.port), ("h:", 80));
    let out = client.request("GET", "http://a:1:2/x", &[], None).unwrap();
    assert_eq!((out.host.as_str(), out.port), ("a:1", 2));
}

#[test]
fn responses_are_read() {
    let r = parse_response(b"HTTP/1.1 302 Found\r\nLocation:  http://p/x:y \r\nX\r\nSET-cookie: a=b\r\n\r\nbody").unwrap();
    assert_eq!(r.status, 302);
    assert_eq!(r.headers, vec![pair("location", "http://p/x:y"), pair("set-cookie", "a=b")]);
    assert_eq!(r.header("LOCATION"), Some("http://p/x:y"));
    assert_eq!(r.header("Set-Cookie"), Some("a=b"));
    assert_eq!(r.header("X"), None);
    assert_eq!(r.body, b"body");
}

#[test]
fn first_header_counts() {
    let r = HttpResponse { status: 200, headers: vec![pair("a", "1"), pair("a", "2")], body: Vec::new() };
    assert_eq!(r.header("A"), Some("1"));
}

#[test]
fn broken_responses_are_refused() {
    assert_eq!(parse_response(b"HTTP/1.1 200 OK\r\n").unwrap_err(), "响应缺少头部分隔符");
    assert_eq!(parse_response(b"HTTP/1.1 abc\r\n\r\n").unwrap_err(), "无法解析状态行: HTTP/1.1 abc");
    assert_eq!(parse_response(b"HTTP/1.1 99999\r\n\r\n").unwrap_err(), "无法解析状态行: HTTP/1.1 99999");
    assert_eq!(parse_response(b"HTTP/1.1\r\n\r\nx").unwrap().status, 0);
    assert_eq!(parse_response(b"\r\n\r\n").unwrap().status, 0);
    let bad = parse_response(b"HTTP/1.1 200 OK\r\nX: \xFF\r\n\r\n").unwrap();
    assert_eq!(bad.header("x"), Some("\u{FFFD}"));
}

#[test]
fn chunks_come_back() {
    assert_eq!(decode_chunked(b"4\r\nWiki\r\n6;x=y\r\npedia \r\n0\r\n\r\n"), b"Wikipedia ");
    assert_eq!(decode_chunked(b" A \r\n0123456789\r\n0\r\n\r\nmore"), b"0123456789");
    let r = parse_response(b"HTTP/1.1 200 OK\r\nTransfer-Encoding: gzip, Chunked\r\n\r\n3\r\nabc\r\n0\r\n\r\n").unwrap();
    assert_eq!(r.body, b"abc");
    let plain = parse_response(b"HTTP/1.1 200 OK\r\n\r\n3\r\nabc\r\n0\r\n\r\n").unwrap();
    assert_eq!(plain.body, b"3\r\nabc\r\n0\r\n\r\n");
}

#[test]
fn broken_chunks_keep_what_came() {
    assert_eq!(decode_chunked(b"5\r\nabc"), b"abc");
    assert_eq!(decode_chunked(b"3\r\nabc\r\nzz\r\nabc"), b"abc");
    assert_eq!(decode_chunked(b"3\r\nabc"), b"abc");
    assert_eq!(decode_chunked(b"3\r\nabc\r"), b"abc");
    assert_eq!(decode_chunked(b"3"), b"");
    assert_eq!(decode_chunked(b""), b"");
    assert_eq!(decode_chunked(b"ffffffffffffffff\r\nabc"), b"abc");
}

#[test]
fn chunks_come_back_in_either_case() {
    let mut data = b"1A;name=value;other\r\n".to_vec();
    data.extend_from_slice(b"abcdefghijklmnopqrstuvwxyz\r\n0a\r\n0123456789\r\n000;x\r\nTrailer: y\r\n\r\n");
    assert_eq!(decode_chunked(&data), b"abcdefghijklmnopqrstuvwxyz0123456789");
}

#[test]
fn extensions_may_hold_a_carriage_return() {
    assert_eq!(decode_chunked(b"3;a\rb\r\r\nabc\r\n0\r\n\r\n"), b"abc");
}
