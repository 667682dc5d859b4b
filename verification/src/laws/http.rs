//! What goes out to a server and what comes back from it.
use vstd::prelude::*;
use vstd::utf8::{
    decode_utf8, encode_utf8, encode_utf8_decode_utf8, encode_utf8_valid_utf8, valid_utf8,
};
use crate::http::{
    after_word, agent_header, at_any_space, at_semicolon, chunked_header, first_word, head_end,
    head_parts, header_lines, header_named, header_value, host_port, line_header, line_size,
    line_status, request_text, response, says_chunked, sent_headers, unchunked, url_target,
    ResponseView,
};
use crate::laws::text::{
    all_white, is_decimal_digit, is_free_of, is_tight, is_white, lacks, law_begins_with,
    law_decimal_notation_comes_back, law_first_piece, law_single_piece,
    law_trimming_drops_white_space, lemma_found_behind,
};
use crate::text::{
    at_char, contains, dec, digits_value, first_stop, first_where, joined, last_where,
    lemma_find_from, lemma_first_stop, lemma_first_where, lemma_last_where, lower, number,
    occurs_at, somes, split_on, starts_with, trim_start,
};

verus! {

// ---------------------------------------------------------------------------
// Responses
// ---------------------------------------------------------------------------

/// A header comes back as it was sent: the name in small letters, the value as it is.
pub proof fn law_header_comes_back(name: Seq<char>, value: Seq<char>)
    requires
        lacks(name, ':'),
        is_tight(name),
        is_tight(value),
    ensures
        line_header(name + ": "@ + value) == Some((lower(name), value)),
        line_header(name + ":"@ + value) == Some((lower(name), value)),
        line_header(name) is None,
{
    reveal_strlit(": ");
    reveal_strlit(":");
    let none = Seq::<char>::empty();
    let blank = seq![' '];
    let line = name + ": "@ + value;
    let short = name + ":"@ + value;
    let n = name.len() as int;
    lemma_stops_at(line, ':', n);
    lemma_stops_at(short, ':', n);
    lemma_first_stop(name, 0, at_char(':'));
    if first_stop(name, 0, at_char(':')) < n {
        assert(name[first_stop(name, 0, at_char(':'))] != ':');
    }
    assert(line.take(n) == name);
    assert(short.take(n) == name);
    assert(line.skip(n + 1) == blank + value + none);
    assert(short.skip(n + 1) == none + value + none);
    assert(none + name + none == name);
    law_trimming_drops_white_space(none, name, none);
    law_trimming_drops_white_space(blank, value, none);
    law_trimming_drops_white_space(none, value, none);
}

/// A search stops at the first occurrence of a character.
pub proof fn lemma_stops_at(s: Seq<char>, c: char, n: int)
    requires
        0 <= n < s.len(),
        s[n] == c,
        forall|i: int| 0 <= i < n ==> #[trigger] s[i] != c,
    ensures
        first_stop(s, 0, at_char(c)) == n,
{
    lemma_first_stop(s, 0, at_char(c));
    let k = first_stop(s, 0, at_char(c));
    if k < n {
        assert(s[k] != c);
    }
    if k > n {
        assert(!at_char(c)(s[n]));
    }
}

/// The value of a header is that of the first with its name, whatever the case of the name,
/// and as it stands there.
pub proof fn law_first_header_counts(
    before: Seq<(Seq<char>, Seq<char>)>,
    name: Seq<char>,
    value: Seq<char>,
    after: Seq<(Seq<char>, Seq<char>)>,
    asked: Seq<char>,
)
    requires
        name == lower(asked),
        forall|i: int| 0 <= i < before.len() ==> (#[trigger] before[i]).0 != lower(asked),
    ensures
        header_value(before.push((name, value)) + after, asked) == Some(value),
        header_value(before, asked) is None,
{
    let all = before.push((name, value)) + after;
    let named = header_named(lower(asked));
    let n = before.len() as int;
    lemma_first_where(all, named, 0);
    lemma_first_where(before, named, 0);
    assert(all[n] == (name, value));
    assert(named(all[n]));
    if let Some(k) = first_where(all, named, 0) {
        if k < n {
            assert(all[k] == before[k]);
            assert(named(all[k]));
        }
    }
    if let Some(k) = first_where(before, named, 0) {
        assert(named(before[k]));
    }
}

/// The first word of a text, and what follows it.
proof fn lemma_word(word: Seq<char>, rest: Seq<char>)
    requires
        word.len() > 0,
        forall|i: int| 0 <= i < word.len() ==> !is_white(#[trigger] word[i]),
        rest.len() > 0 ==> is_white(rest[0]),
    ensures
        first_word(word + rest) == word,
        after_word(word + rest) == rest,
{
    let s = word + rest;
    assert(s[0] == word[0]);
    assert(trim_start(s) == s);
    let stop = at_any_space();
    lemma_first_stop(s, 0, stop);
    let k = first_stop(s, 0, stop);
    if k < word.len() {
        assert(s[k] == word[k]);
    }
    if k > word.len() {
        assert(s[word.len() as int] == rest[0]);
        assert(!stop(s[word.len() as int]));
    }
    assert(s.take(k) == word);
    assert(s.skip(k) == rest);
}

/// The status of a response is the number in its status line, whatever words stand around
/// it.
pub proof fn law_status_comes_back(version: Seq<char>, status: nat, reason: Seq<char>)
    requires
        version.len() > 0,
        forall|i: int| 0 <= i < version.len() ==> !is_white(#[trigger] version[i]),
        status <= 65535,
    ensures
        line_status(version + " "@ + dec(status) + " "@ + reason) == Some(status as int),
        line_status(version + " "@ + dec(status)) == Some(status as int),
{
    reveal_strlit(" ");
    law_decimal_notation_comes_back(status);
    let digits = dec(status);
    assert forall|i: int| 0 <= i < digits.len() implies !is_white(#[trigger] digits[i]) by {
        assert(is_decimal_digit(digits[i]));
    }
    let long = " "@ + digits + " "@ + reason;
    let short = " "@ + digits;
    assert(version + " "@ + digits + " "@ + reason == version + long);
    assert(version + " "@ + digits == version + short);
    lemma_word(version, long);
    lemma_word(version, short);
    lemma_word(digits, " "@ + reason);
    lemma_word(digits, Seq::empty());
    lemma_space_before(digits + (" "@ + reason));
    lemma_space_before(digits);
    assert(long == " "@ + (digits + (" "@ + reason)));
    assert(digits + Seq::<char>::empty() == digits);
    assert(!is_white(digits[0]));
}

/// A space in front of a word makes no difference to it.
proof fn lemma_space_before(s: Seq<char>)
    requires
        s.len() > 0,
        !is_white(s[0]),
    ensures
        first_word(" "@ + s) == first_word(s),
{
    reveal_strlit(" ");
    assert((" "@ + s).drop_first() == s);
    assert((" "@ + s)[0] == ' ');
    assert(trim_start(s) == s);
}

/// A status line whose second word is no number is refused, with the line.
pub proof fn law_bad_status_is_refused(version: Seq<char>, word: Seq<char>)
    requires
        version.len() > 0,
        word.len() > 0,
        word[0] != '+',
        forall|i: int| 0 <= i < version.len() ==> !is_white(#[trigger] version[i]),
        forall|i: int| 0 <= i < word.len() ==> !is_white(#[trigger] word[i]),
        digits_value(word, 10) is None || digits_value(word, 10)->0 > 65535,
    ensures
        line_status(version + " "@ + word) is None,
{
    reveal_strlit(" ");
    assert(version + " "@ + word == version + (" "@ + word));
    lemma_word(version, " "@ + word);
    lemma_space_before(word);
    lemma_word(word, Seq::empty());
    assert(word + Seq::<char>::empty() == word);
}

/// Header lines as they are sent.
pub open spec fn sent_lines(headers: Seq<(Seq<char>, Seq<char>)>) -> Seq<Seq<char>> {
    headers.map_values(|h: (Seq<char>, Seq<char>)| h.0 + ": "@ + h.1)
}

/// Headers that can be sent: a name without a colon, nothing with white space around it,
/// and no line end.
pub open spec fn can_be_sent(headers: Seq<(Seq<char>, Seq<char>)>) -> bool {
    forall|k: int|
        0 <= k < headers.len() ==> {
            let h = #[trigger] headers[k];
            lacks(h.0, ':') && is_tight(h.0) && is_tight(h.1) && lacks(h.0, '\r') && lacks(
                h.1,
                '\r',
            )
        }
}

/// Lines without a line end are split again where they were joined.
proof fn lemma_lines_come_back(lines: Seq<Seq<char>>)
    requires
        lines.len() > 0,
        forall|k: int| 0 <= k < lines.len() ==> lacks(#[trigger] lines[k], '\r'),
    ensures
        split_on(joined(lines, "\r\n"@), "\r\n"@) == lines,
    decreases lines.len(),
{
    reveal_strlit("\r\n");
    let sep = "\r\n"@;
    let (first, rest) = (lines[0], lines.skip(1));
    assert(lacks(first, '\r'));
    if lines.len() == 1 {
        assert forall|a: Seq<char>, b: Seq<char>| first != #[trigger] (a + sep + b) by {
            if first == a + sep + b {
                assert(first[a.len() as int] == '\r');
            }
        }
        law_single_piece(first, sep);
        assert(lines == seq![first]);
    } else {
        assert(forall|k: int| 0 <= k < rest.len() ==> #[trigger] rest[k] == lines[k + 1]);
        lemma_lines_come_back(rest);
        let tail = joined(rest, sep);
        let s = first + sep + tail;
        assert forall|i: int| 0 <= i < first.len() implies !#[trigger] occurs_at(s, sep, i) by {
            if occurs_at(s, sep, i) {
                assert(s.subrange(i, i + 2)[0] == '\r');
                assert(s[i] == first[i]);
            }
        }
        law_first_piece(first, sep, tail);
        assert(seq![first] + rest == lines);
    }
}

/// Headers come back from the lines that hold them.
proof fn lemma_headers_come_back(headers: Seq<(Seq<char>, Seq<char>)>)
    requires
        can_be_sent(headers),
    ensures
        somes(sent_lines(headers).map_values(|l: Seq<char>| line_header(l))) == headers.map_values(
            |h: (Seq<char>, Seq<char>)| (lower(h.0), h.1),
        ),
    decreases headers.len(),
{
    let read = |l: Seq<char>| line_header(l);
    let small = |h: (Seq<char>, Seq<char>)| (lower(h.0), h.1);
    let found = sent_lines(headers).map_values(read);
    if headers.len() > 0 {
        let less = headers.drop_last();
        assert(forall|k: int| 0 <= k < less.len() ==> #[trigger] less[k] == headers[k]);
        lemma_headers_come_back(less);
        let h = headers[headers.len() - 1];
        law_header_comes_back(h.0, h.1);
        assert(found.drop_last() == sent_lines(less).map_values(read));
        assert(found.last() == Some((lower(h.0), h.1)));
        assert(headers.map_values(small) == less.map_values(small).push((lower(h.0), h.1)));
    } else {
        assert(found == Seq::<Option<(Seq<char>, Seq<char>)>>::empty());
    }
}

/// The head of a response comes back: its status, and its headers in their order, with the
/// names in small letters and the values as they were sent.
pub proof fn law_head_comes_back(
    version: Seq<char>,
    status: nat,
    reason: Seq<char>,
    headers: Seq<(Seq<char>, Seq<char>)>,
)
    requires
        version.len() > 0,
        forall|i: int| 0 <= i < version.len() ==> !is_white(#[trigger] version[i]),
        status <= 65535,
        lacks(reason, '\r'),
        can_be_sent(headers),
    ensures
        head_parts(
            joined(
                seq![version + " "@ + dec(status) + " "@ + reason] + sent_lines(headers),
                "\r\n"@,
            ),
        ) == Ok::<(int, Seq<(Seq<char>, Seq<char>)>), Seq<char>>(
            (
                status as int,
                headers.map_values(|h: (Seq<char>, Seq<char>)| (lower(h.0), h.1)),
            ),
        ),
{
    let first = version + " "@ + dec(status) + " "@ + reason;
    let lines = seq![first] + sent_lines(headers);
    reveal_strlit(" ");
    reveal_strlit(": ");
    law_decimal_notation_comes_back(status);
    assert forall|k: int| 0 <= k < lines.len() implies lacks(#[trigger] lines[k], '\r') by {
        if k == 0 {
            assert forall|i: int| 0 <= i < first.len() implies #[trigger] first[i] != '\r' by {
                let n = version.len() as int;
                let m = n + 1 + dec(status).len();
                if i < n {
                    assert(first[i] == version[i]);
                } else if n < i < m {
                    assert(first[i] == dec(status)[i - n - 1]);
                    assert(is_decimal_digit(dec(status)[i - n - 1]));
                } else if i > m {
                    assert(first[i] == reason[i - m - 1]);
                }
            }
        } else {
            let h = headers[k - 1];
            let line = h.0 + ": "@ + h.1;
            assert(lines[k] == line);
            assert forall|i: int| 0 <= i < line.len() implies #[trigger] line[i] != '\r' by {
                if i < h.0.len() {
                    assert(line[i] == h.0[i]);
                } else if i >= h.0.len() + 2 {
                    assert(line[i] == h.1[i - h.0.len() - 2]);
                }
            }
        }
    }
    lemma_lines_come_back(lines);
    law_status_comes_back(version, status, reason);
    lemma_headers_come_back(headers);
    assert(lines.skip(1) == sent_lines(headers));
}

/// Two line ends, one behind the other.
pub open spec fn empty_line() -> Seq<u8> {
    seq![13u8, 10u8, 13u8, 10u8]
}

/// The body of a response is what stands behind the first empty line, byte for byte, unless
/// it is chunked.
pub proof fn law_body_comes_back(head: Seq<u8>, body: Seq<u8>)
    requires
        valid_utf8(head),
        head_parts(decode_utf8(head)) is Ok,
        forall|i: int|
            0 <= i < head.len() ==> !#[trigger] occurs_at(
                head + empty_line() + body,
                empty_line(),
                i,
            ),
    ensures
        response(head + empty_line() + body) matches Ok(r) && r.status == head_parts(
            decode_utf8(head),
        )->Ok_0.0 && r.headers == head_parts(decode_utf8(head))->Ok_0.1 && ({
            let chunked = exists|i: int|
                0 <= i < r.headers.len() && (#[trigger] r.headers[i]).0 == "transfer-encoding"@
                    && contains(lower(r.headers[i].1), "chunked"@);
            &&& !chunked ==> r.body == body
            &&& chunked ==> r.body == unchunked(body)
        }),
{
    let end = empty_line();
    let raw = head + end + body;
    let n = head.len() as int;
    assert(end == head_end());
    assert(raw.subrange(n, n + 4) == end);
    lemma_found_behind(raw, end, n);
    assert(raw.take(n) == head);
    assert(raw.skip(n + 4) == body);
    lemma_chunked(head_parts(decode_utf8(head))->Ok_0.1);
}

/// The headers say that the body is chunked where one of them does.
proof fn lemma_chunked(headers: Seq<(Seq<char>, Seq<char>)>)
    ensures
        says_chunked(headers) == exists|i: int|
            0 <= i < headers.len() && (#[trigger] headers[i]).0 == "transfer-encoding"@ && contains(
                lower(headers[i].1),
                "chunked"@,
            ),
{
    let p = chunked_header();
    lemma_first_where(headers, p, 0);
    if let Some(k) = first_where(headers, p, 0) {
        assert(p(headers[k]));
    } else {
        assert(forall|i: int| 0 <= i < headers.len() ==> !p(#[trigger] headers[i]));
    }
}

/// Without an empty line there is no response.
pub proof fn law_head_without_end_is_refused(raw: Seq<u8>)
    requires
        forall|i: int| !#[trigger] occurs_at(raw, empty_line(), i),
    ensures
        response(raw) == Err::<ResponseView, Seq<char>>("响应缺少头部分隔符"@),
{
    assert(empty_line() == head_end());
    lemma_find_from(raw, head_end(), 0);
}

// ---------------------------------------------------------------------------
// Requests
// ---------------------------------------------------------------------------

/// A host as a URL writes it: neither a slash nor a colon.
pub open spec fn is_host(host: Seq<char>) -> bool {
    lacks(host, '/') && lacks(host, ':')
}

/// A URL says where to connect: the host, port 80 unless another is named, and the path
/// with the query as it is written.
pub proof fn law_url_says_where_to_connect(host: Seq<char>, port: nat, path: Seq<char>)
    requires
        is_host(host),
        port <= 65535,
        path.len() > 0,
        path[0] == '/',
    ensures
        url_target("http://"@ + host + path) == Some((host, 80int, path)),
        url_target("http://"@ + host) == Some((host, 80int, "/"@)),
        url_target("http://"@ + host + ":"@ + dec(port) + path) == Some((host, port as int, path)),
        url_target("http://"@ + host + ":"@ + dec(port)) == Some((host, port as int, "/"@)),
{
    reveal_strlit("http://");
    reveal_strlit(":");
    let none = Seq::<char>::empty();
    law_decimal_notation_comes_back(port);
    let named = host + ":"@ + dec(port);
    assert(lacks(named, '/')) by {
        assert forall|i: int| 0 <= i < named.len() implies #[trigger] named[i] != '/' by {
            if i < host.len() {
                assert(named[i] == host[i]);
            } else if i > host.len() {
                assert(named[i] == dec(port)[i - host.len() - 1]);
                assert(is_decimal_digit(dec(port)[i - host.len() - 1]));
            }
        }
    }
    lemma_plain_host(host);
    lemma_port_is_cut(host, port);
    lemma_target(host, path);
    lemma_target(host, none);
    lemma_target(named, path);
    lemma_target(named, none);
    assert("http://"@ + host + none == "http://"@ + host);
    assert("http://"@ + named + path == "http://"@ + host + ":"@ + dec(port) + path);
    assert("http://"@ + named + none == "http://"@ + host + ":"@ + dec(port));
}

/// The parts of a URL.
proof fn lemma_target(hostport: Seq<char>, path: Seq<char>)
    requires
        lacks(hostport, '/'),
        path.len() > 0 ==> path[0] == '/',
    ensures
        url_target("http://"@ + hostport + path) == Some(
            (
                host_port(hostport).0,
                host_port(hostport).1,
                if path.len() > 0 {
                    path
                } else {
                    "/"@
                },
            ),
        ),
{
    reveal_strlit("http://");
    let url = "http://"@ + hostport + path;
    let rest = url.skip(7);
    assert(rest == hostport + path);
    assert(url == "http://"@ + rest);
    law_begins_with(rest, "http://"@);
    lemma_first_stop(rest, 0, at_char('/'));
    let k = first_stop(rest, 0, at_char('/'));
    if k < hostport.len() {
        assert(rest[k] == hostport[k]);
    }
    if path.len() > 0 && k > hostport.len() {
        assert(rest[hostport.len() as int] == path[0]);
        assert(!at_char('/')(rest[hostport.len() as int]));
    }
    assert(k == hostport.len());
    assert(rest.take(k) == hostport);
    assert(rest.skip(k) == path);
}

/// A host without a port.
proof fn lemma_plain_host(host: Seq<char>)
    requires
        lacks(host, ':'),
    ensures
        host_port(host) == (host, 80int),
{
    lemma_last_where(host, at_char(':'), host.len() as int);
    if let Some(k) = last_where(host, at_char(':'), host.len() as int) {
        assert(at_char(':')(host[k]));
        assert(host[k] != ':');
    }
}

/// Nothing but an `http` URL is requested.
pub proof fn law_other_urls_are_refused(url: Seq<char>)
    requires
        forall|rest: Seq<char>| url != #[trigger] ("http://"@ + rest),
    ensures
        url_target(url) is None,
{
    law_begins_with(url, "http://"@);
    if starts_with(url, "http://"@) {
        assert(url == "http://"@ + url.skip("http://"@.len() as int));
    }
}

/// Header lines are written one after the other, each with a colon and a space, and ended.
pub proof fn law_header_lines(
    headers: Seq<(Seq<char>, Seq<char>)>,
    name: Seq<char>,
    value: Seq<char>,
)
    ensures
        header_lines(headers.push((name, value))) == header_lines(headers) + (name + ": "@ + value
            + "\r\n"@),
        header_lines(Seq::empty()) == Seq::<char>::empty(),
{
    assert(headers.push((name, value)).drop_last() == headers);
    assert(header_lines(headers) + name + ": "@ + value + "\r\n"@ == header_lines(headers) + (name
        + ": "@ + value + "\r\n"@));
}

/// A request is its line, the host, the headers that are given, and the body behind its
/// length in bytes.
pub proof fn law_request_is_written(
    method: Seq<char>,
    path: Seq<char>,
    host: Seq<char>,
    port: int,
    headers: Seq<(Seq<char>, Seq<char>)>,
    agent: Seq<char>,
    body: Seq<char>,
)
    requires
        port > 0,
        port != 80,
        forall|i: int|
            0 <= i < headers.len() ==> lower((#[trigger] headers[i]).0) != "user-agent"@,
    ensures
        ({
            let given = seq![("User-Agent"@, agent)] + headers;
            let start = method + " "@ + path + " HTTP/1.1\r\nHost: "@ + host;
            let middle = "\r\nConnection: close\r\n"@ + header_lines(given);
            &&& request_text(method, path, host, 80, given, None) == start + middle + "\r\n"@
            &&& request_text(method, path, host, port, given, None) == start + ":"@ + dec(
                port as nat,
            ) + middle + "\r\n"@
            &&& request_text(method, path, host, 80, given, Some(body)) == start + middle
                + "Content-Length: "@ + dec(encode_utf8(body).len()) + "\r\n"@ + "\r\n"@ + body
            &&& request_text(method, path, host, 80, headers, None) == start
                + "\r\nConnection: close\r\n"@ + header_lines(headers)
                + "User-Agent: rust-auth/1.0\r\n"@ + "\r\n"@
        }),
{
    let given = seq![("User-Agent"@, agent)] + headers;
    let p = agent_header();
    reveal_strlit("User-Agent");
    reveal_strlit("user-agent");
    reveal_strlit("User-Agent: rust-auth/1.0\r\n");
    reveal_strlit("rust-auth/1.0");
    reveal_strlit(": ");
    reveal_strlit("\r\n");
    assert(lower("User-Agent"@) =~= "user-agent"@);
    assert(lower("user-agent"@) =~= "user-agent"@);
    lemma_first_where(given, p, 0);
    assert(given[0] == ("User-Agent"@, agent));
    assert(p(given[0]));
    lemma_first_where(headers, p, 0);
    if let Some(k) = first_where(headers, p, 0) {
        assert(p(headers[k]));
    }
    law_header_lines(headers, "User-Agent"@, "rust-auth/1.0"@);
    assert("User-Agent"@ + ": "@ + "rust-auth/1.0"@ + "\r\n"@ =~= "User-Agent: rust-auth/1.0\r\n"@);
    let start = method + " "@ + path + " HTTP/1.1\r\nHost: "@ + host;
    let middle = "\r\nConnection: close\r\n"@ + header_lines(given);
    assert(request_text(method, path, host, 80, given, None) =~= start + middle + "\r\n"@);
    assert(request_text(method, path, host, port, given, None) =~= start + ":"@ + dec(port as nat)
        + middle + "\r\n"@);
    assert(request_text(method, path, host, 80, given, Some(body)) =~= start + middle
        + "Content-Length: "@ + dec(encode_utf8(body).len()) + "\r\n"@ + "\r\n"@ + body);
    assert(request_text(method, path, host, 80, headers, None) =~= start
        + "\r\nConnection: close\r\n"@ + header_lines(headers) + "User-Agent: rust-auth/1.0\r\n"@
        + "\r\n"@);
}

/// The headers that name the agent themselves, in letters of either case, are sent as they
/// are; to any others the agent is added.
pub proof fn law_agent_is_named_once(headers: Seq<(Seq<char>, Seq<char>)>, i: int)
    ensures
        0 <= i < headers.len() && lower(headers[i].0) == "user-agent"@ ==> sent_headers(headers)
            == headers,
        (forall|j: int|
            0 <= j < headers.len() ==> lower((#[trigger] headers[j]).0) != "user-agent"@)
            ==> sent_headers(headers) == headers.push(("User-Agent"@, "rust-auth/1.0"@)),
{
    reveal_strlit("user-agent");
    assert(lower("user-agent"@) =~= "user-agent"@);
    lemma_first_where(headers, agent_header(), 0);
    if 0 <= i < headers.len() && lower(headers[i].0) == "user-agent"@ {
        assert(agent_header()(headers[i]));
    }
    if let Some(k) = first_where(headers, agent_header(), 0) {
        assert(agent_header()(headers[k]));
    }
}

/// A port that is none is taken for port 80.
pub proof fn law_port_out_of_range_is_the_usual_one(host: Seq<char>, port: nat, path: Seq<char>)
    requires
        is_host(host),
        port > 65535,
        path.len() > 0,
        path[0] == '/',
    ensures
        url_target("http://"@ + host + ":"@ + dec(port) + path) == Some((host, 80int, path)),
{
    reveal_strlit(":");
    law_decimal_notation_comes_back(port);
    let named = host + ":"@ + dec(port);
    assert(lacks(named, '/')) by {
        assert forall|i: int| 0 <= i < named.len() implies #[trigger] named[i] != '/' by {
            if i < host.len() {
                assert(named[i] == host[i]);
            } else if i > host.len() {
                assert(named[i] == dec(port)[i - host.len() - 1]);
                assert(is_decimal_digit(dec(port)[i - host.len() - 1]));
            }
        }
    }
    lemma_port_is_cut(host, port);
    lemma_target(named, path);
    assert("http://"@ + named + path =~= "http://"@ + host + ":"@ + dec(port) + path);
}

/// The port is cut off at the colon, whatever its size.
proof fn lemma_port_is_cut(host: Seq<char>, port: nat)
    ensures
        host_port(host + ":"@ + dec(port)) == (host, if port <= 65535 {
            port as int
        } else {
            80
        }),
{
    reveal_strlit(":");
    law_decimal_notation_comes_back(port);
    let s = host + ":"@ + dec(port);
    let n = host.len() as int;
    lemma_last_where(s, at_char(':'), s.len() as int);
    assert(at_char(':')(s[n]));
    let k = last_where(s, at_char(':'), s.len() as int)->0;
    if k > n {
        assert(s[k] == dec(port)[k - n - 1]);
        assert(is_decimal_digit(dec(port)[k - n - 1]));
        assert(at_char(':')(s[k]));
    }
    assert(s.skip(n + 1) == dec(port));
    assert(s.take(n) == host);
    assert forall|i: int| 0 <= i < dec(port).len() implies '0' <= #[trigger] dec(port)[i]
        && dec(port)[i] <= '9' by {
        assert(is_decimal_digit(dec(port)[i]));
    }
}

/// A status line of one word has no status, which counts as 0.
pub proof fn law_missing_status_is_zero(version: Seq<char>)
    requires
        version.len() > 0,
        forall|i: int| 0 <= i < version.len() ==> !is_white(#[trigger] version[i]),
    ensures
        line_status(version) == Some(0int),
{
    let none = Seq::<char>::empty();
    assert(version + none =~= version);
    lemma_word(version, none);
    assert(trim_start(none) == none);
    assert(first_word(none).len() == 0);
}

/// The size of a chunk is the number before the semicolon, blanks around it aside; what
/// follows the semicolon makes no difference.
pub proof fn law_size_may_have_blanks(
    before: Seq<char>,
    size: Seq<char>,
    after: Seq<char>,
    extensions: Seq<u8>,
    n: int,
)
    requires
        all_white(before),
        all_white(after),
        is_tight(size),
        number(size, 16) == Some(n),
        n <= usize::MAX,
        forall|i: int|
            0 <= i < encode_utf8(before + size + after).len() ==> #[trigger] encode_utf8(
                before + size + after,
            )[i] != 59,
    ensures
        line_size(encode_utf8(before + size + after)) == Some(n),
        line_size(encode_utf8(before + size + after) + seq![59u8] + extensions) == Some(n),
{
    let text = before + size + after;
    let bytes = encode_utf8(text);
    let line = bytes + seq![59u8] + extensions;
    encode_utf8_valid_utf8(text);
    encode_utf8_decode_utf8(text);
    law_trimming_drops_white_space(before, size, after);
    lemma_first_where(bytes, at_semicolon(), 0);
    if let Some(k) = first_where(bytes, at_semicolon(), 0) {
        assert(at_semicolon()(bytes[k]));
        assert(bytes[k] != 59);
    }
    lemma_first_where(line, at_semicolon(), 0);
    let m = bytes.len() as int;
    assert(line[m] == 59);
    assert(at_semicolon()(line[m]));
    let f = first_where(line, at_semicolon(), 0)->0;
    if f < m {
        assert(at_semicolon()(line[f]));
        assert(line[f] == bytes[f]);
    }
    if f > m {
        assert(!at_semicolon()(line[m]));
    }
    assert(line.take(m) =~= bytes);
}

/// A head whose status line is refused is refused with that line.
pub proof fn law_refusal_tells_the_line(line: Seq<char>)
    requires
        line_status(line) is None,
        is_free_of(line, "\r\n"@),
    ensures
        head_parts(line) == Err::<(int, Seq<(Seq<char>, Seq<char>)>), Seq<char>>(
            "无法解析状态行: "@ + line,
        ),
{
    law_single_piece(line, "\r\n"@);
}

} // verus!
