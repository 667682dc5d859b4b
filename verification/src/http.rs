//! Plain HTTP/1.1: taking a URL apart, writing a request, reading a response.
use vstd::prelude::*;
use vstd::utf8::{
    decode_utf8, encode_utf8, encode_utf8_decode_utf8, encode_utf8_valid_utf8, is_ascii_chars,
    is_ascii_chars_encode_utf8, valid_utf8,
};
use crate::ipv4::Ipv4;
use crate::text::{
    at_char, begins_with, chars_of, contains, contains_text, dec, dec_text, digit_value,
    digits_value, find_bytes, find_from, first_stop, first_where, is_space, is_space_spec, join2,
    join3, last_where, lemma_find_from, lemma_first_where, lower, lower_chars, lower_text, number,
    occurs_at, opt_text, pair_view, pairs, parse_number, push_text, same_ignoring_case,
    same_ignoring_case_spec, same_text, scan_to, scan_to_char, somes, split_chars, split_on,
    starts_with, text_of, trim, trim_start, trimmed,
};

verus! {

// ---------------------------------------------------------------------------
// Text from bytes
// ---------------------------------------------------------------------------

/// The error of `std::str::from_utf8`.
#[verifier::external_type_specification]
#[verifier::external_body]
pub struct ExUtf8Error(std::str::Utf8Error);

/// `std::str::from_utf8` gives the text whose UTF-8 encoding the bytes are, and fails
/// exactly where the bytes are not valid UTF-8.
pub assume_specification[ std::str::from_utf8 ](v: &[u8]) -> (r: Result<
    &str,
    std::str::Utf8Error,
>)
    ensures
        match r {
            Ok(s) => valid_utf8(v@) && s@ == decode_utf8(v@),
            Err(_) => !valid_utf8(v@),
        },
;

/// What `String::from_utf8_lossy` makes of bytes.
pub uninterp spec fn lossy_text(bytes: Seq<u8>) -> Seq<char>;

/// `String::from_utf8_lossy`: the text of the bytes, with a replacement character for
/// each invalid part. Which parts those are is not stated, only that the same bytes give
/// the same text.
#[verifier::external_body]
fn from_utf8_lossy(bytes: &[u8]) -> (r: String)
    ensures
        r@ == lossy_text(bytes@),
{
    String::from_utf8_lossy(bytes).into_owned()
}

/// The text of bytes: what they encode in UTF-8, or the lossy reading where they are not
/// valid UTF-8.
pub open spec fn readable(bytes: Seq<u8>) -> Seq<char> {
    if valid_utf8(bytes) {
        decode_utf8(bytes)
    } else {
        lossy_text(bytes)
    }
}

/// The text of bytes, with replacement characters where they are not valid UTF-8.
fn readable_text(bytes: &[u8]) -> (r: String)
    ensures
        r@ == readable(bytes@),
{
    match std::str::from_utf8(bytes) {
        Ok(s) => s.to_owned(),
        Err(_) => from_utf8_lossy(bytes),
    }
}

// ---------------------------------------------------------------------------
// Responses
// ---------------------------------------------------------------------------

/// A response: the status, the headers with their names in small letters, and the body
/// with any chunked coding taken off.
#[derive(Debug)]
pub struct HttpResponse {
    pub status: u16,
    pub headers: Vec<(String, String)>,
    pub body: Vec<u8>,
}

/// A response as plain values.
#[verifier::ext_equal]
pub struct ResponseView {
    pub status: int,
    pub headers: Seq<(Seq<char>, Seq<char>)>,
    pub body: Seq<u8>,
}

impl View for HttpResponse {
    type V = ResponseView;

    open spec fn view(&self) -> ResponseView {
        ResponseView { status: self.status as int, headers: pairs(self.headers@), body: self.body@ }
    }
}

/// Headers named `name`.
pub open spec fn header_named(name: Seq<char>) -> spec_fn((Seq<char>, Seq<char>)) -> bool {
    |h: (Seq<char>, Seq<char>)| h.0 == name
}

/// The value of the first header with the name, whatever its case.
pub open spec fn header_value(headers: Seq<(Seq<char>, Seq<char>)>, name: Seq<char>) -> Option<
    Seq<char>,
> {
    match first_where(headers, header_named(lower(name)), 0) {
        Some(i) => Some(headers[i].1),
        None => None,
    }
}

impl HttpResponse {
    /// The value of the first header with the name, whatever the case of its letters.
    pub fn header(&self, name: &str) -> (r: Option<&str>)
        ensures
            match r {
                Some(v) => header_value(self@.headers, name@) == Some(v@),
                None => header_value(self@.headers, name@) is None,
            },
    {
        let wanted = lower_text(name);
        let ghost p = header_named(lower(name@));
        let mut i: usize = 0;
        while i < self.headers.len()
            invariant
                i <= self.headers@.len(),
                wanted@ == lower(name@),
                p == header_named(lower(name@)),
                first_where(self@.headers, p, 0) == first_where(self@.headers, p, i as int),
            decreases self.headers@.len() - i,
        {
            assert(self@.headers[i as int] == pair_view(self.headers@[i as int]));
            if same_text(&self.headers[i].0, &wanted) {
                return Some(self.headers[i].1.as_str());
            }
            i += 1;
        }
        None
    }
}

// ---------------------------------------------------------------------------
// The head of a response
// ---------------------------------------------------------------------------

/// Unicode white space.
pub open spec fn at_any_space() -> spec_fn(char) -> bool {
    |c: char| is_space_spec(c)
}

/// The first word of a text: what stands between white space.
pub open spec fn first_word(s: Seq<char>) -> Seq<char> {
    trim_start(s).take(first_stop(trim_start(s), 0, at_any_space()))
}

/// What follows the first word of a text.
pub open spec fn after_word(s: Seq<char>) -> Seq<char> {
    trim_start(s).skip(first_stop(trim_start(s), 0, at_any_space()))
}

/// The status in a status line: its second word as a number of 16 bits, or zero where
/// there is no second word.
pub open spec fn line_status(line: Seq<char>) -> Option<int> {
    let word = first_word(after_word(line));
    if word.len() == 0 {
        Some(0)
    } else {
        match number(word, 10) {
            Some(n) => if n <= u16::MAX {
                Some(n)
            } else {
                None
            },
            None => None,
        }
    }
}

/// The header in a header line: what stands before the first colon, trimmed and in small
/// letters, and what stands behind it, trimmed. A line without a colon holds none.
pub open spec fn line_header(line: Seq<char>) -> Option<(Seq<char>, Seq<char>)> {
    let colon = first_stop(line, 0, at_char(':'));
    if colon < line.len() {
        Some((lower(trim(line.take(colon))), trim(line.skip(colon + 1))))
    } else {
        None
    }
}

/// The status and the headers of a response's head, or what is wrong with its status
/// line.
pub open spec fn head_parts(head: Seq<char>) -> Result<
    (int, Seq<(Seq<char>, Seq<char>)>),
    Seq<char>,
> {
    let lines = split_on(head, "\r\n"@);
    match line_status(lines[0]) {
        Some(status) => Ok(
            (status, somes(lines.skip(1).map_values(|l: Seq<char>| line_header(l)))),
        ),
        None => Err("无法解析状态行: "@ + lines[0]),
    }
}

/// The part of `s` behind the white space at its start.
fn without_leading_space(s: &[char]) -> (r: &[char])
    ensures
        r@ == trim_start(s@),
{
    let mut a: usize = 0;
    assert(s@.skip(0) == s@);
    while a < s.len() && is_space(s[a])
        invariant
            a <= s.len(),
            trim_start(s@) == trim_start(s@.skip(a as int)),
        decreases s.len() - a,
    {
        assert(s@.skip(a as int).drop_first() == s@.skip(a + 1));
        a += 1;
    }
    let r = &s[a..s.len()];
    assert(r@ == s@.skip(a as int));
    r
}

/// The first word of `s` and what follows it.
fn cut_word(s: &[char]) -> (r: (&[char], &[char]))
    ensures
        r.0@ == first_word(s@),
        r.1@ == after_word(s@),
{
    let t = without_leading_space(s);
    let end = scan_to(t, 0, is_space, Ghost(at_any_space()));
    let word = &t[0..end];
    let rest = &t[end..t.len()];
    assert(word@ == t@.take(end as int));
    assert(rest@ == t@.skip(end as int));
    (word, rest)
}

/// The status in a status line.
fn status_of(line: &[char]) -> (r: Option<u16>)
    ensures
        match r {
            Some(n) => line_status(line@) == Some(n as int),
            None => line_status(line@) is None,
        },
{
    let (version, rest) = cut_word(line);
    let (word, more) = cut_word(rest);
    if word.len() == 0 {
        return Some(0);
    }
    match parse_number(word, 10, 65535) {
        Some(n) => Some(n as u16),
        None => None,
    }
}

/// The header in a header line.
fn header_of(line: &[char]) -> (r: Option<(String, String)>)
    ensures
        match r {
            Some(h) => line_header(line@) == Some(pair_view(h)),
            None => line_header(line@) is None,
        },
{
    let colon = scan_to_char(line, 0, ':');
    if colon < line.len() {
        let name = &line[0..colon];
        let value = &line[colon + 1..line.len()];
        assert(name@ == line@.take(colon as int));
        assert(value@ == line@.skip(colon + 1));
        Some((text_of(&lower_chars(trimmed(name))), text_of(trimmed(value))))
    } else {
        None
    }
}

/// The status and the headers in the head of a response.
pub fn parse_head(head: &str) -> (r: Result<(u16, Vec<(String, String)>), String>)
    ensures
        match r {
            Ok((status, headers)) => head_parts(head@) == Ok::<
                (int, Seq<(Seq<char>, Seq<char>)>),
                Seq<char>,
            >((status as int, pairs(headers@))),
            Err(e) => head_parts(head@) == Err::<
                (int, Seq<(Seq<char>, Seq<char>)>),
                Seq<char>,
            >(e@),
        },
{
    proof {
        reveal_strlit("\r\n");
    }
    let sep = chars_of("\r\n");
    assert(sep@.len() == 2);
    let lines = split_chars(&chars_of(head), &sep);
    let ghost views = split_on(head@, "\r\n"@);
    assert(lines@.map_values(|p: Vec<char>| p@) == views);
    assert(forall|k: int| 0 <= k < lines@.len() ==> #[trigger] views[k] == lines@[k]@);
    let status = match status_of(&lines[0]) {
        Some(n) => n,
        None => {
            return Err(join2("无法解析状态行: ", &text_of(&lines[0])));
        },
    };
    let mut headers: Vec<(String, String)> = Vec::new();
    let ghost found = views.skip(1).map_values(|l: Seq<char>| line_header(l));
    let mut i: usize = 1;
    assert(found.take(0) == Seq::<Option<(Seq<char>, Seq<char>)>>::empty());
    while i < lines.len()
        invariant
            1 <= i <= lines@.len(),
            views.len() == lines@.len(),
            forall|k: int| 0 <= k < lines@.len() ==> #[trigger] views[k] == lines@[k]@,
            found == views.skip(1).map_values(|l: Seq<char>| line_header(l)),
            pairs(headers@) == somes(found.take(i - 1)),
        decreases lines@.len() - i,
    {
        let ghost before = pairs(headers@);
        assert(found.take(i as int).drop_last() == found.take(i - 1));
        assert(found[i - 1] == line_header(lines@[i as int]@));
        match header_of(&lines[i]) {
            Some(h) => {
                headers.push(h);
                assert(pairs(headers@) == before.push(pair_view(h)));
            },
            None => {},
        }
        i += 1;
    }
    assert(found.take(i - 1) == found);
    Ok((status, headers))
}

// ---------------------------------------------------------------------------
// Chunked bodies
// ---------------------------------------------------------------------------

/// The two bytes that end a line.
pub open spec fn crlf() -> Seq<u8> {
    seq![13u8, 10u8]
}

/// The empty line that ends a head.
pub open spec fn head_end() -> Seq<u8> {
    seq![13u8, 10u8, 13u8, 10u8]
}

/// The semicolon that begins the extensions of a chunk's size line.
pub open spec fn at_semicolon() -> spec_fn(u8) -> bool {
    |b: u8| b == 59
}

/// The part of a chunk's size line before its extensions.
pub open spec fn size_part(line: Seq<u8>) -> Seq<u8> {
    match first_where(line, at_semicolon(), 0) {
        Some(i) => line.take(i),
        None => line,
    }
}

/// The size in the line before a chunk: the hexadecimal number that stands before the
/// extensions, white space aside, where it fits a machine word.
pub open spec fn line_size(line: Seq<u8>) -> Option<int> {
    if valid_utf8(size_part(line)) {
        match number(trim(decode_utf8(size_part(line))), 16) {
            Some(n) => if n <= usize::MAX {
                Some(n)
            } else {
                None
            },
            None => None,
        }
    } else {
        None
    }
}

/// What a chunked body holds: the chunks one after the other, up to the chunk of size
/// zero, to a line that holds no size, or to the end of what was received. Of a chunk
/// that is cut short, what is there.
pub open spec fn unchunked(data: Seq<u8>) -> Seq<u8>
    decreases data.len(),
{
    proof {
        lemma_find_from(data, crlf(), 0);
    }
    match find_from(data, crlf(), 0) {
        None => Seq::empty(),
        Some(p) => {
            let rest = data.skip(p + 2);
            match line_size(data.take(p)) {
                None => Seq::empty(),
                Some(n) => if n <= 0 {
                    Seq::empty()
                } else if n + 2 >= rest.len() {
                    rest.take(if n < rest.len() {
                        n
                    } else {
                        rest.len() as int
                    })
                } else {
                    rest.take(n) + unchunked(rest.skip(n + 2))
                },
            }
        },
    }
}

/// Taking the chunked coding off makes no body longer.
proof fn lemma_unchunked_is_no_longer(data: Seq<u8>)
    ensures
        unchunked(data).len() <= data.len(),
    decreases data.len(),
{
    lemma_find_from(data, crlf(), 0);
    if let Some(p) = find_from(data, crlf(), 0) {
        let rest = data.skip(p + 2);
        if let Some(n) = line_size(data.take(p)) {
            if 0 < n && n + 2 < rest.len() {
                lemma_unchunked_is_no_longer(rest.skip(n + 2));
            }
        }
    }
}

/// The size in the line before a chunk.
fn size_of(line: &[u8]) -> (r: Option<usize>)
    ensures
        match r {
            Some(n) => line_size(line@) == Some(n as int),
            None => line_size(line@) is None,
        },
{
    let mut end: usize = 0;
    while end < line.len() && line[end] != 59
        invariant
            end <= line@.len(),
            first_where(line@, at_semicolon(), 0) == first_where(
                line@,
                at_semicolon(),
                end as int,
            ),
        decreases line@.len() - end,
    {
        end += 1;
    }
    let part = &line[0..end];
    assert(part@ == size_part(line@)) by {
        assert(part@ == line@.take(end as int));
        assert(line@.take(line@.len() as int) == line@);
    }
    match std::str::from_utf8(part) {
        Ok(text) => {
            match parse_number(trimmed(&chars_of(text)), 16, usize::MAX as u64) {
                Some(n) => Some(n as usize),
                None => None,
            }
        },
        Err(_) => None,
    }
}

/// Takes the chunked coding off a body. What was received of a body that is cut short is
/// kept.
pub fn decode_chunked(data: &[u8]) -> (r: Vec<u8>)
    ensures
        r@ == unchunked(data@),
{
    let mut out: Vec<u8> = Vec::new();
    let mut i: usize = 0;
    let line_end = [13u8, 10u8];
    assert(line_end@ == crlf());
    assert(data@.skip(0) == data@);
    loop
        invariant
            i <= data@.len(),
            line_end@ == crlf(),
            out@ + unchunked(data@.skip(i as int)) == unchunked(data@),
        decreases data@.len() - i,
    {
        let ghost before = out@;
        let rest = &data[i..data.len()];
        assert(rest@ == data@.skip(i as int));
        let p = match find_bytes(rest, &line_end, 0) {
            Some(p) => p,
            None => {
                assert(out@ == unchunked(data@));
                return out;
            },
        };
        let line = &rest[0..p];
        assert(line@ == rest@.take(p as int));
        let n = match size_of(line) {
            Some(n) => n,
            None => {
                assert(out@ == unchunked(data@));
                return out;
            },
        };
        if n == 0 {
            assert(out@ == unchunked(data@));
            return out;
        }
        let chunks = &rest[p + 2..rest.len()];
        assert(chunks@ == rest@.skip(p + 2));
        if n >= chunks.len() {
            out.extend_from_slice(chunks);
            assert(out@ == before + chunks@);
            assert(chunks@.take(chunks@.len() as int) == chunks@);
            assert(out@ == unchunked(data@));
            return out;
        }
        let chunk = &chunks[0..n];
        assert(chunk@ == chunks@.take(n as int));
        out.extend_from_slice(chunk);
        assert(out@ == before + chunk@);
        if chunks.len() - n <= 2 {
            assert(out@ == unchunked(data@));
            return out;
        }
        assert(chunks@.skip(n + 2) == data@.skip(i + p + 2 + n + 2));
        i = i + p + 2 + n + 2;
    }
}

/// The headers say that the body is chunked.
pub open spec fn says_chunked(headers: Seq<(Seq<char>, Seq<char>)>) -> bool {
    first_where(headers, chunked_header(), 0) is Some
}

/// Headers that say that the body is chunked.
pub open spec fn chunked_header() -> spec_fn((Seq<char>, Seq<char>)) -> bool {
    |h: (Seq<char>, Seq<char>)| h.0 == "transfer-encoding"@ && contains(lower(h.1), "chunked"@)
}

/// What a raw response says: its head up to the first empty line, its body behind it with
/// a chunked coding taken off. It is refused where there is no empty line or where the
/// status line holds no status.
pub open spec fn response(raw: Seq<u8>) -> Result<ResponseView, Seq<char>> {
    match find_from(raw, head_end(), 0) {
        None => Err("响应缺少头部分隔符"@),
        Some(sep) => match head_parts(readable(raw.take(sep))) {
            Err(e) => Err(e),
            Ok((status, headers)) => Ok(
                ResponseView {
                    status,
                    headers,
                    body: if says_chunked(headers) {
                        unchunked(raw.skip(sep + 4))
                    } else {
                        raw.skip(sep + 4)
                    },
                },
            ),
        },
    }
}

/// Whether the headers say that the body is chunked.
fn is_chunked(headers: &Vec<(String, String)>) -> (r: bool)
    ensures
        r == says_chunked(pairs(headers@)),
{
    let mut i: usize = 0;
    while i < headers.len()
        invariant
            i <= headers@.len(),
            first_where(pairs(headers@), chunked_header(), 0) == first_where(
                pairs(headers@),
                chunked_header(),
                i as int,
            ),
        decreases headers@.len() - i,
    {
        assert(pairs(headers@)[i as int] == pair_view(headers@[i as int]));
        if same_text(&headers[i].0, "transfer-encoding") && contains_text(
            &lower_chars(&chars_of(&headers[i].1)),
            &chars_of("chunked"),
        ) {
            return true;
        }
        i += 1;
    }
    false
}

/// Reads a raw response.
pub fn parse_response(raw: &[u8]) -> (r: Result<HttpResponse, String>)
    ensures
        match r {
            Ok(resp) => response(raw@) == Ok::<ResponseView, Seq<char>>(resp@) && resp.body@.len()
                <= raw@.len(),
            Err(e) => response(raw@) == Err::<ResponseView, Seq<char>>(e@),
        },
{
    let blank = [13u8, 10u8, 13u8, 10u8];
    assert(blank@ == head_end());
    assert(blank@.len() == 4);
    assert(raw.len() == raw@.len());
    let sep = match find_bytes(raw, &blank, 0) {
        Some(i) => i,
        None => {
            return Err("响应缺少头部分隔符".to_owned());
        },
    };
    let head = &raw[0..sep];
    let rest = &raw[sep + 4..raw.len()];
    assert(head@ == raw@.take(sep as int));
    assert(rest@ == raw@.skip(sep + 4));
    match parse_head(&readable_text(head)) {
        Err(e) => Err(e),
        Ok((status, headers)) => {
            proof {
                lemma_unchunked_is_no_longer(rest@);
            }
            let body = if is_chunked(&headers) {
                decode_chunked(rest)
            } else {
                let mut all: Vec<u8> = Vec::new();
                all.extend_from_slice(rest);
                assert(all@ == rest@);
                all
            };
            Ok(HttpResponse { status, headers, body })
        },
    }
}

// ---------------------------------------------------------------------------
// Requests
// ---------------------------------------------------------------------------

/// A request as it goes out: where to connect, and what to send there.
#[derive(Debug)]
pub struct Outgoing {
    pub host: String,
    pub port: u16,
    pub payload: String,
}

/// A request to make: what goes to `HttpClient::request`.
#[derive(Debug)]
pub struct Call {
    pub method: String,
    pub url: String,
    pub headers: Vec<(String, String)>,
    pub body: Option<String>,
}

/// A request to make, as plain values.
#[verifier::ext_equal]
pub struct CallView {
    pub method: Seq<char>,
    pub url: Seq<char>,
    pub headers: Seq<(Seq<char>, Seq<char>)>,
    pub body: Option<Seq<char>>,
}

impl View for Call {
    type V = CallView;

    open spec fn view(&self) -> CallView {
        CallView {
            method: self.method@,
            url: self.url@,
            headers: pairs(self.headers@),
            body: opt_text(self.body),
        }
    }
}

/// What a request came to: a response, or why there is none.
pub type Reply = Result<HttpResponse, String>;

/// What a request came to, as plain values.
pub type ReplyView = Result<ResponseView, Seq<char>>;

/// The plain values of what a request came to.
pub open spec fn reply_view(reply: Reply) -> ReplyView {
    match reply {
        Ok(resp) => Ok(resp@),
        Err(e) => Err(e@),
    }
}

/// Adds a header.
pub fn add_header(headers: &mut Vec<(String, String)>, name: &str, value: &str)
    ensures
        pairs(final(headers)@) == pairs(old(headers)@).push((name@, value@)),
{
    headers.push((name.to_owned(), value.to_owned()));
    assert(pairs(headers@) == pairs(old(headers)@).push((name@, value@)));
}

/// A run of decimal digits, at least one.
pub open spec fn is_digits(s: Seq<char>) -> bool {
    s.len() > 0 && forall|i: int| 0 <= i < s.len() ==> '0' <= #[trigger] s[i] && s[i] <= '9'
}

/// The port that a run of digits names; 80 where it is too large for one.
pub open spec fn port_number(digits: Seq<char>) -> int {
    match number(digits, 10) {
        Some(n) => if n <= u16::MAX {
            n
        } else {
            80
        },
        None => 80,
    }
}

/// The host and the port in front of a URL's path: the digits behind the last colon are
/// the port, which is 80 where there are none.
pub open spec fn host_port(hostport: Seq<char>) -> (Seq<char>, int) {
    match last_where(hostport, at_char(':'), hostport.len() as int) {
        Some(k) => if is_digits(hostport.skip(k + 1)) {
            (hostport.take(k), port_number(hostport.skip(k + 1)))
        } else {
            (hostport, 80)
        },
        None => (hostport, 80),
    }
}

/// The host, the port and the path of an `http://` URL.
pub open spec fn url_target(url: Seq<char>) -> Option<(Seq<char>, int, Seq<char>)> {
    if starts_with(url, "http://"@) {
        let rest = url.skip(7);
        let slash = first_stop(rest, 0, at_char('/'));
        let (host, port) = host_port(rest.take(slash));
        Some(
            (
                host,
                port,
                if slash < rest.len() {
                    rest.skip(slash)
                } else {
                    "/"@
                },
            ),
        )
    } else {
        None
    }
}

/// Headers that name the user agent.
pub open spec fn agent_header() -> spec_fn((Seq<char>, Seq<char>)) -> bool {
    |h: (Seq<char>, Seq<char>)| same_ignoring_case_spec(h.0, "user-agent"@)
}

/// The headers as they are sent: those given, and a user agent where none is given.
pub open spec fn sent_headers(headers: Seq<(Seq<char>, Seq<char>)>) -> Seq<
    (Seq<char>, Seq<char>),
> {
    if first_where(headers, agent_header(), 0) is Some {
        headers
    } else {
        headers.push(("User-Agent"@, "rust-auth/1.0"@))
    }
}

/// Header lines, one after the other.
pub open spec fn header_lines(headers: Seq<(Seq<char>, Seq<char>)>) -> Seq<char>
    decreases headers.len(),
{
    if headers.len() == 0 {
        Seq::empty()
    } else {
        header_lines(headers.drop_last()) + headers.last().0 + ": "@ + headers.last().1 + "\r\n"@
    }
}

/// The value of the `Host` header: the host, with the port where it is not 80.
pub open spec fn host_header(host: Seq<char>, port: int) -> Seq<char> {
    if port == 80 {
        host
    } else {
        host + ":"@ + dec(port as nat)
    }
}

/// What ends a request: the length of the body in bytes and the body, or the empty line
/// alone.
pub open spec fn request_tail(body: Option<Seq<char>>) -> Seq<char> {
    match body {
        Some(b) => "Content-Length: "@ + dec(encode_utf8(b).len()) + "\r\n"@ + "\r\n"@ + b,
        None => "\r\n"@,
    }
}

/// A request as it is sent.
pub open spec fn request_text(
    method: Seq<char>,
    path: Seq<char>,
    host: Seq<char>,
    port: int,
    headers: Seq<(Seq<char>, Seq<char>)>,
    body: Option<Seq<char>>,
) -> Seq<char> {
    method + " "@ + path + " HTTP/1.1\r\nHost: "@ + host_header(host, port)
        + "\r\nConnection: close\r\n"@ + header_lines(sent_headers(headers)) + request_tail(body)
}

/// Whether `s` is a run of decimal digits, at least one.
fn all_digits(s: &[char]) -> (r: bool)
    ensures
        r == is_digits(s@),
{
    let mut i: usize = 0;
    while i < s.len()
        invariant
            i <= s@.len(),
            forall|k: int| 0 <= k < i ==> '0' <= #[trigger] s@[k] && s@[k] <= '9',
        decreases s@.len() - i,
    {
        if !('0' <= s[i] && s[i] <= '9') {
            assert(!('0' <= s@[i as int] && s@[i as int] <= '9'));
            return false;
        }
        i += 1;
    }
    s.len() > 0
}

/// The host and the port in front of a URL's path.
fn cut_port(hostport: &[char]) -> (r: (String, u16))
    ensures
        (r.0@, r.1 as int) == host_port(hostport@),
{
    let mut k: usize = hostport.len();
    while k > 0 && hostport[k - 1] != ':'
        invariant
            k <= hostport@.len(),
            last_where(hostport@, at_char(':'), hostport@.len() as int) == last_where(
                hostport@,
                at_char(':'),
                k as int,
            ),
        decreases k,
    {
        k -= 1;
    }
    if k > 0 {
        let host = &hostport[0..k - 1];
        let digits = &hostport[k..hostport.len()];
        assert(host@ == hostport@.take(k - 1));
        assert(digits@ == hostport@.skip(k as int));
        if all_digits(digits) {
            let port = match parse_number(digits, 10, 65535) {
                Some(n) => n as u16,
                None => 80u16,
            };
            return (text_of(host), port);
        }
    }
    (text_of(hostport), 80)
}

/// The host, the port and the path of an `http://` URL.
fn cut_url(url: &str) -> (r: Option<(String, u16, String)>)
    ensures
        match r {
            Some(t) => url_target(url@) == Some((t.0@, t.1 as int, t.2@)),
            None => url_target(url@) is None,
        },
{
    proof {
        reveal_strlit("http://");
    }
    let chars = chars_of(url);
    let scheme = chars_of("http://");
    assert(scheme@.len() == 7);
    if !begins_with(&chars, &scheme) {
        return None;
    }
    let rest = &chars[7..chars.len()];
    assert(rest@ == url@.skip(7));
    let slash = scan_to_char(rest, 0, '/');
    let before = &rest[0..slash];
    assert(before@ == rest@.take(slash as int));
    let (host, port) = cut_port(before);
    let path = if slash < rest.len() {
        let tail = &rest[slash..rest.len()];
        assert(tail@ == rest@.skip(slash as int));
        text_of(tail)
    } else {
        "/".to_owned()
    };
    Some((host, port, path))
}

/// Whether one of the headers names the user agent.
fn names_agent(headers: &[(String, String)]) -> (r: bool)
    ensures
        r == (first_where(pairs(headers@), agent_header(), 0) is Some),
{
    let mut i: usize = 0;
    while i < headers.len()
        invariant
            i <= headers@.len(),
            first_where(pairs(headers@), agent_header(), 0) == first_where(
                pairs(headers@),
                agent_header(),
                i as int,
            ),
        decreases headers@.len() - i,
    {
        assert(pairs(headers@)[i as int] == pair_view(headers@[i as int]));
        if same_ignoring_case(&headers[i].0, "user-agent") {
            return true;
        }
        i += 1;
    }
    false
}

/// Appends a header line.
fn push_header(out: &mut String, name: &str, value: &str)
    ensures
        final(out)@ == old(out)@ + name@ + ": "@ + value@ + "\r\n"@,
{
    push_text(out, name);
    push_text(out, ": ");
    push_text(out, value);
    push_text(out, "\r\n");
}

/// Appends the header lines that are sent.
fn push_headers(out: &mut String, headers: &[(String, String)])
    ensures
        final(out)@ == old(out)@ + header_lines(sent_headers(pairs(headers@))),
{
    let ghost start = out@;
    let ghost views = pairs(headers@);
    let mut i: usize = 0;
    while i < headers.len()
        invariant
            i <= headers@.len(),
            views == pairs(headers@),
            out@ == start + header_lines(views.take(i as int)),
        decreases headers@.len() - i,
    {
        assert(views[i as int] == pair_view(headers@[i as int]));
        assert(views.take(i + 1).drop_last() == views.take(i as int));
        push_header(out, &headers[i].0, &headers[i].1);
        i += 1;
        assert(out@ == start + header_lines(views.take(i as int)));
    }
    assert(views.take(views.len() as int) == views);
    if !names_agent(headers) {
        let ghost more = views.push(("User-Agent"@, "rust-auth/1.0"@));
        assert(more.drop_last() == views);
        push_header(out, "User-Agent", "rust-auth/1.0");
        assert(out@ == start + header_lines(more));
    }
}

/// How requests are sent: the local address they leave from, where one is chosen, and how
/// long to wait.
#[derive(Debug, Clone, Copy)]
pub struct HttpClient {
    pub source: Option<Ipv4>,
    pub timeout_secs: u64,
}

impl HttpClient {
    /// A client that sends from `source` and waits eight seconds.
    pub fn new(source: Option<Ipv4>) -> (r: Self)
        ensures
            r.source == source,
            r.timeout_secs == 8,
    {
        HttpClient { source, timeout_secs: 8 }
    }

    /// Writes the request for an `http://` URL: where to connect and what to send. Any
    /// other URL is refused.
    pub fn request(
        &self,
        method: &str,
        url: &str,
        headers: &[(String, String)],
        body: Option<&str>,
    ) -> (r: Result<Outgoing, String>)
        ensures
            match url_target(url@) {
                Some((host, port, path)) => r matches Ok(out) && out.host@ == host && out.port
                    == port && out.payload@ == request_text(
                    method@,
                    path,
                    host,
                    port,
                    pairs(headers@),
                    match body {
                        Some(b) => Some(b@),
                        None => None,
                    },
                ),
                None => r matches Err(e) && e@ == "仅支持 http URL: "@ + url@,
            },
    {
        let (host, port, path) = match cut_url(url) {
            Some(t) => t,
            None => {
                return Err(join2("仅支持 http URL: ", url));
            },
        };
        let mut payload = join3(method, " ", &path);
        push_text(&mut payload, " HTTP/1.1\r\nHost: ");
        push_text(&mut payload, &host);
        if port != 80 {
            push_text(&mut payload, ":");
            push_text(&mut payload, &dec_text(port as u64));
        }
        assert(payload@ == method@ + " "@ + path@ + " HTTP/1.1\r\nHost: "@ + host_header(
            host@,
            port as int,
        ));
        push_text(&mut payload, "\r\nConnection: close\r\n");
        push_headers(&mut payload, headers);
        let ghost top = payload@;
        match body {
            Some(b) => {
                push_text(&mut payload, "Content-Length: ");
                push_text(&mut payload, &dec_text(b.as_bytes().len() as u64));
                push_text(&mut payload, "\r\n");
                push_text(&mut payload, "\r\n");
                push_text(&mut payload, b);
                assert(payload@ == top + request_tail(Some(b@)));
            },
            None => {
                push_text(&mut payload, "\r\n");
            },
        }
        Ok(Outgoing { host, port, payload })
    }
}

// ---------------------------------------------------------------------------
// Laws
// ---------------------------------------------------------------------------

/// How many of the headers name the user agent.
pub open spec fn agent_count(headers: Seq<(Seq<char>, Seq<char>)>) -> nat {
    headers.filter(agent_header()).len()
}

/// A request names the user agent exactly once where its caller names it at most once.
pub proof fn law_one_user_agent(headers: Seq<(Seq<char>, Seq<char>)>)
    requires
        agent_count(headers) <= 1,
    ensures
        agent_count(sent_headers(headers)) == 1,
{
    let p = agent_header();
    lemma_first_where(headers, p, 0);
    let last = ("User-Agent"@, "rust-auth/1.0"@);
    match first_where(headers, p, 0) {
        Some(i) => {
            lemma_filter_finds(headers, p, i);
        },
        None => {
            lemma_filter_none(headers, p);
            reveal(Seq::filter);
            assert(headers.push(last).drop_last() == headers);
            assert(p(last)) by {
                reveal_strlit("User-Agent");
                reveal_strlit("user-agent");
                assert(lower("User-Agent"@) =~= lower("user-agent"@));
            }
        },
    }
}

/// Where the caller names the user agent, the headers go out as they are given, so that
/// the first user agent in the request is the caller's.
pub proof fn law_given_user_agent_is_first(headers: Seq<(Seq<char>, Seq<char>)>, i: int)
    requires
        first_where(headers, agent_header(), 0) == Some(i),
    ensures
        sent_headers(headers) == headers,
        first_where(sent_headers(headers), agent_header(), 0) == Some(i),
{
}

/// An item that satisfies `p` is found by a filter with `p`.
proof fn lemma_filter_finds<A>(s: Seq<A>, p: spec_fn(A) -> bool, i: int)
    requires
        0 <= i < s.len(),
        p(s[i]),
    ensures
        s.filter(p).len() > 0,
    decreases s.len(),
{
    reveal(Seq::filter);
    if i < s.len() - 1 {
        assert(s.drop_last()[i] == s[i]);
        lemma_filter_finds(s.drop_last(), p, i);
    }
}

/// A filter with `p` finds nothing where no item satisfies `p`.
proof fn lemma_filter_none<A>(s: Seq<A>, p: spec_fn(A) -> bool)
    requires
        forall|j: int| 0 <= j < s.len() ==> !p(#[trigger] s[j]),
    ensures
        s.filter(p).len() == 0,
    decreases s.len(),
{
    reveal(Seq::filter);
    if s.len() > 0 {
        assert forall|j: int| 0 <= j < s.drop_last().len() implies !p(
            #[trigger] s.drop_last()[j],
        ) by {
            assert(s.drop_last()[j] == s[j]);
        }
        lemma_filter_none(s.drop_last(), p);
    }
}

/// A chunk as it is sent: its size in hexadecimal notation, the extensions that follow it,
/// and what it holds.
#[verifier::ext_equal]
pub struct ChunkView {
    pub size: Seq<char>,
    pub extensions: Seq<u8>,
    pub data: Seq<u8>,
}

/// A chunk is sent as it ought to be: its size is that of what it holds, in digits of
/// either case, and its extensions begin with a semicolon and hold no line end.
pub open spec fn well_sent(c: ChunkView) -> bool {
    &&& c.size.len() > 0
    &&& digits_value(c.size, 16) == Some(c.data.len() as int)
    &&& c.data.len() <= usize::MAX
    &&& c.extensions.len() > 0 ==> c.extensions[0] == 59
    &&& forall|i: int| !#[trigger] occurs_at(c.extensions, crlf(), i)
}

/// The line before a chunk.
pub open spec fn size_line(c: ChunkView) -> Seq<u8> {
    encode_utf8(c.size) + c.extensions
}

/// The chunked coding of chunks, with `last`, the chunk of size zero, behind them, and
/// `trailer` behind that.
pub open spec fn chunk_encoded(
    chunks: Seq<ChunkView>,
    last: ChunkView,
    trailer: Seq<u8>,
) -> Seq<u8>
    decreases chunks.len(),
{
    if chunks.len() == 0 {
        size_line(last) + crlf() + trailer
    } else {
        size_line(chunks[0]) + crlf() + chunks[0].data + crlf() + chunk_encoded(
            chunks.drop_first(),
            last,
            trailer,
        )
    }
}

/// What chunks hold, one after the other.
pub open spec fn concatenated(chunks: Seq<ChunkView>) -> Seq<u8>
    decreases chunks.len(),
{
    if chunks.len() == 0 {
        Seq::empty()
    } else {
        chunks[0].data + concatenated(chunks.drop_first())
    }
}

/// What denotes a number is made of digits.
proof fn lemma_digits_alone(s: Seq<char>)
    requires
        digits_value(s, 16) is Some,
    ensures
        forall|i: int| 0 <= i < s.len() ==> digit_value(#[trigger] s[i], 16) is Some,
    decreases s.len(),
{
    if s.len() > 0 {
        lemma_digits_alone(s.drop_last());
        assert forall|i: int| 0 <= i < s.len() implies digit_value(#[trigger] s[i], 16) is Some by {
            if i < s.len() - 1 {
                assert(s[i] == s.drop_last()[i]);
            }
        }
    }
}

/// The line before a chunk holds no line end and denotes the chunk's size.
proof fn lemma_size_line(c: ChunkView)
    requires
        well_sent(c),
    ensures
        line_size(size_line(c)) == Some(c.data.len() as int),
        forall|i: int| !#[trigger] occurs_at(size_line(c), crlf(), i),
{
    let text = c.size;
    let digits = encode_utf8(text);
    let line = size_line(c);
    lemma_digits_alone(text);
    assert(is_ascii_chars(text)) by {
        assert forall|i: int| 0 <= i < text.len() implies 0 <= #[trigger] text[i] as nat && text[i] as nat
            <= 127 by {
            assert(digit_value(text[i], 16) is Some);
        }
    }
    is_ascii_chars_encode_utf8(text);
    encode_utf8_valid_utf8(text);
    encode_utf8_decode_utf8(text);
    assert forall|i: int| 0 <= i < digits.len() implies #[trigger] digits[i] != 13 && digits[i]
        != 59 by {
        assert(digit_value(text[i], 16) is Some);
    }
    assert forall|i: int| !#[trigger] occurs_at(line, crlf(), i) by {
        if occurs_at(line, crlf(), i) {
            assert(line.subrange(i, i + 2)[0] == crlf()[0]);
            if i < digits.len() {
                assert(line[i] == digits[i]);
            } else {
                let k = i - digits.len();
                assert(c.extensions.subrange(k, k + 2) == line.subrange(i, i + 2));
                assert(occurs_at(c.extensions, crlf(), k));
            }
        }
    }
    lemma_first_where(line, at_semicolon(), 0);
    match first_where(line, at_semicolon(), 0) {
        Some(k) => {
            if k < digits.len() {
                assert(line[k] == digits[k]);
            }
            assert(line[digits.len() as int] == c.extensions[0]);
            assert(at_semicolon()(line[digits.len() as int]));
            assert(k == digits.len());
            assert(line.take(k) == digits);
        },
        None => {
            if c.extensions.len() > 0 {
                assert(line[digits.len() as int] == c.extensions[0]);
                assert(at_semicolon()(line[digits.len() as int]));
            }
            assert(line == digits);
        },
    }
    assert(digit_value(text[0], 16) is Some);
    assert(digit_value(text.last(), 16) is Some);
    assert(trim(text) == text);
}

/// A body in chunked coding gives back what its chunks hold, one after the other, and
/// nothing of what stands behind the last chunk. Neither the case of the digits nor the
/// extensions make a difference.
pub proof fn law_chunks_come_back(chunks: Seq<ChunkView>, last: ChunkView, trailer: Seq<u8>)
    requires
        forall|i: int|
            0 <= i < chunks.len() ==> well_sent(#[trigger] chunks[i]) && chunks[i].data.len() > 0,
        well_sent(last),
        last.data.len() == 0,
    ensures
        unchunked(chunk_encoded(chunks, last, trailer)) == concatenated(chunks),
    decreases chunks.len(),
{
    let data = chunk_encoded(chunks, last, trailer);
    let c = if chunks.len() == 0 {
        last
    } else {
        chunks[0]
    };
    let n = c.data.len();
    let line = size_line(c);
    lemma_size_line(c);
    assert(data.take(line.len() as int) == line);
    assert(data.subrange(line.len() as int, line.len() as int + 2) == crlf());
    assert(occurs_at(data, crlf(), line.len() as int));
    lemma_find_from(data, crlf(), 0);
    let p = find_from(data, crlf(), 0)->0;
    assert(find_from(data, crlf(), 0) is Some);
    if p < line.len() {
        assert(data.subrange(p, p + 2)[1] == crlf()[1]);
        if p + 1 < line.len() {
            assert(line.subrange(p, p + 2) == data.subrange(p, p + 2));
            assert(occurs_at(line, crlf(), p));
        } else {
            assert(data.subrange(line.len() as int, line.len() as int + 2)[0] == crlf()[0]);
        }
        assert(false);
    }
    assert(p == line.len());
    if chunks.len() > 0 {
        let tail = chunk_encoded(chunks.drop_first(), last, trailer);
        let rest = data.skip(p + 2);
        assert(rest == c.data + crlf() + tail);
        assert(tail.len() > 0);
        assert(rest.take(n as int) == c.data);
        assert(rest.skip(n as int + 2) == tail);
        assert forall|i: int| 0 <= i < chunks.drop_first().len() implies well_sent(
            #[trigger] chunks.drop_first()[i],
        ) && chunks.drop_first()[i].data.len() > 0 by {
            assert(chunks.drop_first()[i] == chunks[i + 1]);
        }
        law_chunks_come_back(chunks.drop_first(), last, trailer);
    }
}

} // verus!
