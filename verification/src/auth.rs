//! Signing in: which address the portal is at, whether the network is open, and the
//! course of a login from the first probe to the verdict.
use vstd::prelude::*;
use vstd::string::StrSliceExecFns;
use crate::clock::{unix_time, unix_time_at};
use crate::common::{body_text, decode_body, fits_decoder, PROBE_URLS, SELF_SERVICE_URL, UA_PC};
use crate::http::{
    add_header, header_value, reply_view, Call, CallView, HttpClient, Reply, ReplyView,
};
use crate::ipv4::Ipv4;
use crate::page::{
    form_inputs, has_password_input, holds_password_input, lemma_password_field_has_a_tag,
    password_field,
};
use crate::text::{
    at_char, begins_with, chars_of, contains, contains_text, cut_end_slashes, dec, dec_text,
    first_stop, is_blank, join2, join3, join4, last_where, lemma_first_stop, lemma_last_where,
    lower, lower_chars, note, occurs, occurs_at, opt_text, pair_view, pairs, same_ignoring_case,
    same_ignoring_case_spec, same_text, scan_to, scan_to_char, somes, split_chars, split_on,
    starts_with, text_of, texts, trim, trimmed, without_end_slashes,
};

verus! {

// ---------------------------------------------------------------------------
// Addresses
// ---------------------------------------------------------------------------

/// The end of a URL's authority: a slash, a question mark or a number sign.
pub open spec fn ends_authority() -> spec_fn(char) -> bool {
    |c: char| c == '/' || c == '?' || c == '#'
}

/// The length of the scheme in front of a URL.
pub open spec fn scheme_len(url: Seq<char>) -> int {
    if starts_with(url, "http://"@) {
        7
    } else if starts_with(url, "https://"@) {
        8
    } else {
        0
    }
}

/// An address of its own: one that names a scheme of the web.
pub open spec fn is_address(url: Seq<char>) -> bool {
    starts_with(url, "http://"@) || starts_with(url, "https://"@)
}

/// A letter of ASCII.
pub open spec fn is_letter(c: char) -> bool {
    ('a' <= c && c <= 'z') || ('A' <= c && c <= 'Z')
}

/// What a scheme is made of: letters, digits, and three signs.
pub open spec fn is_scheme_char(c: char) -> bool {
    is_letter(c) || ('0' <= c && c <= '9') || c == '+' || c == '-' || c == '.'
}

/// Anything that a scheme is not made of.
pub open spec fn off_scheme() -> spec_fn(char) -> bool {
    |c: char| !is_scheme_char(c)
}

/// Where a scheme at the start of a URL ends.
pub open spec fn scheme_end(url: Seq<char>) -> int {
    first_stop(url, 0, off_scheme())
}

/// A URL names a scheme, in letters of either case: it is an absolute address.
pub open spec fn has_scheme(url: Seq<char>) -> bool {
    url.len() > 0 && is_letter(url[0]) && occurs_at(url, "://"@, scheme_end(url))
}

/// An absolute address as it can be requested: with the scheme `https` where it names that
/// one, in letters of either case, and with `http` otherwise.
pub open spec fn requestable(url: Seq<char>) -> Seq<char> {
    (if lower(url.take(scheme_end(url))) == "https"@ {
        "https"@
    } else {
        "http"@
    }) + url.skip(scheme_end(url))
}

/// The host of a URL, with the port where it names one.
pub open spec fn authority(url: Seq<char>) -> Seq<char> {
    let rest = url.skip(scheme_len(url));
    rest.take(first_stop(rest, 0, ends_authority()))
}

/// The host of a URL, without the port.
pub open spec fn host_of(url: Seq<char>) -> Seq<char> {
    authority(url).take(first_stop(authority(url), 0, at_char(':')))
}

/// The base of a URL: its scheme (`http` where it names none) and its authority.
pub open spec fn base_of(url: Seq<char>) -> Seq<char> {
    (if starts_with(url, "https://"@) {
        "https"@
    } else {
        "http"@
    }) + "://"@ + authority(url)
}

/// Whether `c` ends a URL's authority.
fn is_authority_end(c: char) -> (r: bool)
    ensures
        r == (c == '/' || c == '?' || c == '#'),
{
    c == '/' || c == '?' || c == '#'
}

/// Where the authority of a URL begins and ends.
fn authority_span(url: &[char]) -> (r: (usize, usize))
    ensures
        r.0 <= r.1 <= url@.len(),
        r.0 == scheme_len(url@),
        url@.subrange(r.0 as int, r.1 as int) == authority(url@),
{
    proof {
        reveal_strlit("http://");
        reveal_strlit("https://");
    }
    let plain = chars_of("http://");
    let secure = chars_of("https://");
    assert(plain@.len() == 7 && secure@.len() == 8);
    let start: usize = if begins_with(url, &plain) {
        7
    } else if begins_with(url, &secure) {
        8
    } else {
        0
    };
    let rest = &url[start..url.len()];
    assert(rest@ == url@.skip(start as int));
    let end = scan_to(rest, 0, is_authority_end, Ghost(ends_authority()));
    assert(url@.subrange(start as int, start + end) == rest@.take(end as int));
    (start, start + end)
}

/// The host of a URL, without scheme, port and path.
pub fn url_host(url: &str) -> (r: &str)
    ensures
        r@ == host_of(url@),
{
    let chars = chars_of(url);
    let (start, end) = authority_span(&chars);
    let part = &chars[start..end];
    assert(part@ == authority(url@));
    let stop = scan_to_char(part, 0, ':');
    assert(url@.subrange(start as int, start + stop) == part@.take(stop as int));
    url.substring_char(start, start + stop)
}

/// The base of a URL: scheme, host and port, without what belongs to a session.
pub fn url_base(url: &str) -> (r: String)
    ensures
        r@ == base_of(url@),
{
    let chars = chars_of(url);
    let (start, end) = authority_span(&chars);
    let part = text_of(&chars[start..end]);
    assert(part@ == authority(url@));
    if begins_with(&chars, &chars_of("https://")) {
        join3("https", "://", &part)
    } else {
        join3("http", "://", &part)
    }
}

/// A host without the label `www` in front.
pub open spec fn bare_host(host: Seq<char>) -> Seq<char> {
    if starts_with(lower(host), "www."@) {
        host.skip(4)
    } else {
        host
    }
}

/// Two hosts are the same: the case of letters and a leading `www` aside.
pub open spec fn same_host(a: Seq<char>, b: Seq<char>) -> bool {
    same_ignoring_case_spec(bare_host(a), bare_host(b))
}

/// Where a redirect from `requested` to `location` leads, if it is the portal's doing: a
/// path is completed with the requested host; an address on the same host is an ordinary
/// redirect; any other address is the portal's. What names no scheme is a path too, unless
/// it begins with the requested host or with nothing that could be a host.
pub open spec fn captive(requested: Seq<char>, location: Seq<char>) -> Option<Seq<char>> {
    let loc = trim(location);
    let url = requestable(loc);
    if loc.len() == 0 {
        None
    } else if loc[0] == '/' {
        Some("http://"@ + requested + loc)
    } else if has_scheme(loc) {
        if same_host(host_of(url), requested) {
            None
        } else if host_of(url).len() == 0 && !starts_with(url, "https://"@) {
            None
        } else {
            Some(url)
        }
    } else if host_of(loc).len() == 0 || same_host(host_of(loc), requested) {
        None
    } else {
        Some("http://"@ + requested + "/"@ + loc)
    }
}

/// Whether a URL is an address of its own.
fn is_web_address(url: &[char]) -> (r: bool)
    ensures
        r == is_address(url@),
{
    begins_with(url, &chars_of("http://")) || begins_with(url, &chars_of("https://"))
}

/// Whether a scheme is not made of `c`.
fn ends_scheme(c: char) -> (r: bool)
    ensures
        r == !is_scheme_char(c),
{
    !(('a' <= c && c <= 'z') || ('A' <= c && c <= 'Z') || ('0' <= c && c <= '9') || c == '+' || c
        == '-' || c == '.')
}

/// An absolute address as it can be requested; nothing where the URL names no scheme.
fn absolute(url: &[char]) -> (r: Option<String>)
    ensures
        match r {
            Some(u) => has_scheme(url@) && u@ == requestable(url@),
            None => !has_scheme(url@),
        },
{
    if url.len() == 0 {
        return None;
    }
    let first = url[0];
    let end = scan_to(url, 0, ends_scheme, Ghost(off_scheme()));
    if !(('a' <= first && first <= 'z') || ('A' <= first && first <= 'Z')) || !occurs(
        url,
        &chars_of("://"),
        end,
    ) {
        return None;
    }
    let scheme = &url[0..end];
    assert(scheme@ == url@.take(end as int));
    let small = text_of(&lower_chars(scheme));
    let rest = &url[end..url.len()];
    assert(rest@ == url@.skip(end as int));
    if same_text(&small, "https") {
        Some(join2("https", &text_of(rest)))
    } else {
        Some(join2("http", &text_of(rest)))
    }
}

/// The host without the label `www` in front.
fn without_www(host: &str) -> (r: String)
    ensures
        r@ == bare_host(host@),
{
    proof {
        reveal_strlit("www.");
    }
    let chars = chars_of(host);
    let label = chars_of("www.");
    assert(label@.len() == 4);
    let small = lower_chars(&chars);
    if begins_with(&small, &label) {
        assert(small@.len() == chars@.len());
        let rest = &chars[4..chars.len()];
        assert(rest@ == host@.skip(4));
        text_of(rest)
    } else {
        text_of(&chars)
    }
}

/// Whether two hosts are the same, the case of letters and a leading `www` aside.
fn is_same_host(a: &str, b: &str) -> (r: bool)
    ensures
        r == same_host(a@, b@),
{
    same_ignoring_case(&without_www(a), &without_www(b))
}

/// Where a redirect leads if it is the portal's doing, as an address that can be
/// requested: an absolute address as it is, but for the scheme, which is written small, and
/// is `http` where it is none of the web's; a path, with or without a slash in front,
/// completed with the host that was requested. `None` is an ordinary redirect: one that
/// stays on the host, be it to `https` or to and from `www`, or one that leads nowhere.
pub fn captive_target(requested_host: &str, loc: &str) -> (r: Option<String>)
    ensures
        opt_text(r) == captive(requested_host@, loc@),
{
    let chars = chars_of(loc);
    let part = trimmed(&chars);
    let target = text_of(part);
    if part.len() == 0 {
        return None;
    }
    if part[0] == '/' {
        return Some(join3("http://", requested_host, &target));
    }
    if let Some(url) = absolute(part) {
        let host = url_host(&url);
        if is_same_host(host, requested_host) {
            return None;
        }
        if host.is_empty() && !begins_with(&chars_of(&url), &chars_of("https://")) {
            return None;
        }
        return Some(url);
    }
    let host = url_host(&target);
    if host.is_empty() || is_same_host(host, requested_host) {
        return None;
    }
    Some(join4("http://", requested_host, "/", &target))
}

// ---------------------------------------------------------------------------
// Probe targets
// ---------------------------------------------------------------------------

/// The probe target that an entry names: the host up to the first slash, and the path from
/// there on, which is `/` where the entry names none. A blank entry names none.
pub open spec fn entry_target(entry: Seq<char>) -> Option<(Seq<char>, Seq<char>)> {
    let t = trim(entry);
    let slash = first_stop(t, 0, at_char('/'));
    if t.len() == 0 {
        None
    } else if slash < t.len() {
        Some((t.take(slash), t.skip(slash)))
    } else {
        Some((t, "/"@))
    }
}

/// The probe targets in a list separated by commas.
pub open spec fn listed_targets(list: Seq<char>) -> Seq<(Seq<char>, Seq<char>)> {
    somes(split_on(list, ","@).map_values(|e: Seq<char>| entry_target(e)))
}

/// The probe targets that are built in.
pub open spec fn builtin_targets() -> Seq<(Seq<char>, Seq<char>)> {
    PROBE_URLS@.map_values(|p: (&'static str, &'static str)| (p.0@, p.1@))
}

/// The probe targets: those listed in the override where it lists any, or else those that
/// are built in.
pub open spec fn targets_for(setting: Option<Seq<char>>) -> Seq<(Seq<char>, Seq<char>)> {
    match setting {
        Some(list) => if listed_targets(list).len() > 0 {
            listed_targets(list)
        } else {
            builtin_targets()
        },
        None => builtin_targets(),
    }
}

/// The probe target that an entry names.
fn target_of(entry: &[char]) -> (r: Option<(String, String)>)
    ensures
        match r {
            Some(t) => entry_target(entry@) == Some(pair_view(t)),
            None => entry_target(entry@) is None,
        },
{
    let t = trimmed(entry);
    if t.len() == 0 {
        return None;
    }
    let slash = scan_to_char(t, 0, '/');
    if slash < t.len() {
        let host = &t[0..slash];
        let path = &t[slash..t.len()];
        assert(host@ == t@.take(slash as int));
        assert(path@ == t@.skip(slash as int));
        Some((text_of(host), text_of(path)))
    } else {
        Some((text_of(t), "/".to_owned()))
    }
}

/// The addresses to probe, host and path. `setting` is the value of the environment
/// variable `CAMPUS_AUTH_PROBE`, where it is set: a list separated by commas, whose
/// entries are `host/path` or a host alone. It takes the place of the built-in addresses
/// where it lists any.
pub fn probe_targets(setting: Option<&str>) -> (r: Vec<(String, String)>)
    ensures
        pairs(r@) == targets_for(
            match setting {
                Some(s) => Some(s@),
                None => None,
            },
        ),
        r@.len() > 0,
{
    let mut out: Vec<(String, String)> = Vec::new();
    if let Some(list) = setting {
        proof {
            reveal_strlit(",");
        }
        let comma = chars_of(",");
        assert(comma@.len() == 1);
        let entries = split_chars(&chars_of(list), &comma);
        let ghost views = split_on(list@, ","@);
        let ghost found = views.map_values(|e: Seq<char>| entry_target(e));
        assert(entries@.map_values(|p: Vec<char>| p@) == views);
        assert(forall|k: int| 0 <= k < entries@.len() ==> #[trigger] views[k] == entries@[k]@);
        let mut i: usize = 0;
        while i < entries.len()
            invariant
                i <= entries@.len(),
                views.len() == entries@.len(),
                forall|k: int| 0 <= k < entries@.len() ==> #[trigger] views[k] == entries@[k]@,
                found == views.map_values(|e: Seq<char>| entry_target(e)),
                pairs(out@) == somes(found.take(i as int)),
            decreases entries@.len() - i,
        {
            let ghost before = pairs(out@);
            assert(found.take(i + 1).drop_last() == found.take(i as int));
            assert(found[i as int] == entry_target(entries@[i as int]@));
            match target_of(&entries[i]) {
                Some(t) => {
                    out.push(t);
                    assert(pairs(out@) == before.push(pair_view(t)));
                },
                None => {},
            }
            i += 1;
        }
        assert(found.take(i as int) == found);
        if out.len() > 0 {
            return out;
        }
    }
    let mut i: usize = 0;
    let mut builtin: Vec<(String, String)> = Vec::new();
    while i < 3
        invariant
            i <= 3,
            pairs(builtin@) == builtin_targets().take(i as int),
        decreases 3 - i,
    {
        let ghost before = pairs(builtin@);
        let (host, path) = PROBE_URLS[i];
        let target = (host.to_owned(), path.to_owned());
        assert(builtin_targets()[i as int] == pair_view(target));
        builtin.push(target);
        assert(pairs(builtin@) == before.push(pair_view(target)));
        i += 1;
        assert(pairs(builtin@) == builtin_targets().take(i as int));
    }
    assert(builtin_targets().take(3) == builtin_targets());
    builtin
}

// ---------------------------------------------------------------------------
// The look of a portal page
// ---------------------------------------------------------------------------

/// A page looks like one of a portal: it holds a password input, or a word that portals
/// use.
pub open spec fn looks_like_portal(html: Seq<char>) -> bool {
    ||| holds_password_input(html)
    ||| contains(lower(html), "type=\"password\""@)
    ||| contains(lower(html), "type='password'"@)
    ||| contains(lower(html), "wlanuserip"@)
    ||| contains(lower(html), "portal"@)
    ||| contains(lower(html), "login.do"@)
    ||| contains(lower(html), "self/index"@)
    ||| contains(lower(html), "bossweb"@)
    ||| contains(lower(html), "石斧"@)
}

/// Whether a page looks like one of a portal: it holds a password input, or a word that
/// portals use.
pub fn looks_like_portal_page(html: &str) -> (r: bool)
    ensures
        r == looks_like_portal(html@),
{
    if has_password_input(html) {
        return true;
    }
    let small = lower_chars(&chars_of(html));
    contains_text(&small, &chars_of("type=\"password\"")) || contains_text(
        &small,
        &chars_of("type='password'"),
    ) || contains_text(&small, &chars_of("wlanuserip")) || contains_text(
        &small,
        &chars_of("portal"),
    ) || contains_text(&small, &chars_of("login.do")) || contains_text(
        &small,
        &chars_of("self/index"),
    ) || contains_text(&small, &chars_of("bossweb")) || contains_text(&small, &chars_of("石斧"))
}

// ---------------------------------------------------------------------------
// User agents
// ---------------------------------------------------------------------------

/// The phones that a mobile user agent names.
pub const MOBILE_DEVICES: [&'static str; 6] = [
    "Pixel 7",
    "Pixel 7 Pro",
    "SM-S911B",
    "SM-S916B",
    "Pixel 8",
    "SM-A546B",
];

/// The user agent of a phone.
pub open spec fn agent_of_phone(device: Seq<char>) -> Seq<char> {
    "Mozilla/5.0 (Linux; Android 13; "@ + device
        + ") AppleWebKit/537.36 (KHTML, like Gecko) Chrome/120.0.0.0 Mobile Safari/537.36"@
}

/// One of the user agents of the phones.
pub open spec fn is_phone_agent(ua: Seq<char>) -> bool {
    exists|i: int| 0 <= i < 6 && ua == agent_of_phone(#[trigger] MOBILE_DEVICES@[i]@)
}

/// The position of the phone that a seed selects: a step of a linear congruential
/// generator on 64 bits, modulo the number of phones.
pub open spec fn phone_index(seed: u64) -> int {
    ((seed * 6364136223846793005 + 1442695040888963407) % 0x1_0000_0000_0000_0000) % 6
}

/// The user agent of the phone that a seed selects.
pub fn mobile_ua(seed: u64) -> (r: String)
    ensures
        r@ == agent_of_phone(MOBILE_DEVICES@[phone_index(seed)]@),
        is_phone_agent(r@),
{
    let step: u64 = seed.wrapping_mul(6364136223846793005).wrapping_add(1442695040888963407);
    proof {
        let product: int = seed * 6364136223846793005;
        assert(step as int == (product + 1442695040888963407) % 0x1_0000_0000_0000_0000) by {
            vstd::arithmetic::div_mod::lemma_add_mod_noop(
                product,
                1442695040888963407,
                0x1_0000_0000_0000_0000,
            );
        }
    }
    let index: usize = (step % 6) as usize;
    assert(index as int == phone_index(seed));
    let device = MOBILE_DEVICES[index];
    assert(device@ == MOBILE_DEVICES@[index as int]@);
    join3(
        "Mozilla/5.0 (Linux; Android 13; ",
        device,
        ") AppleWebKit/537.36 (KHTML, like Gecko) Chrome/120.0.0.0 Mobile Safari/537.36",
    )
}

/// The seed that a time gives: its seconds and its nanoseconds, mixed; a fixed one where
/// there is no time.
pub open spec fn seed_of(time: Option<(u64, u32)>) -> u64 {
    match time {
        Some((secs, nanos)) => nanos as u64 ^ secs,
        None => 12345,
    }
}

/// The user agent of the phone that a time selects.
pub open spec fn phone_agent_at(time: Option<(u64, u32)>) -> Seq<char> {
    agent_of_phone(MOBILE_DEVICES@[phone_index(seed_of(time))]@)
}

/// The user agent of the phone that a time selects: seconds since the Unix epoch and
/// nanoseconds beyond them.
pub fn mobile_ua_at(time: Option<(u64, u32)>) -> (r: String)
    ensures
        r@ == phone_agent_at(time),
        is_phone_agent(r@),
{
    let seed: u64 = match time {
        Some((secs, nanos)) => nanos as u64 ^ secs,
        None => 12345,
    };
    mobile_ua(seed)
}

/// The user agent of the phone that the moment of the clock selects.
fn random_mobile_ua() -> (r: String)
    ensures
        is_phone_agent(r@),
        exists|t: std::time::SystemTime| r@ == phone_agent_at(#[trigger] unix_time_at(t)),
{
    mobile_ua_at(unix_time())
}

// ---------------------------------------------------------------------------
// Probing
// ---------------------------------------------------------------------------

/// What a probe found.
#[derive(Debug)]
pub enum ProbeState {
    /// The network is open: no redirect, and status 200 or 204.
    Online,
    /// The portal redirects: the absolute address that it leads to.
    Captive(String),
    /// There was no response.
    Unreachable(String),
    /// The response decides nothing, such as an ordinary redirect.
    Inconclusive,
}

/// What a probe found, as plain values.
#[verifier::ext_equal]
pub enum ProbeView {
    Online,
    Captive(Seq<char>),
    Unreachable(Seq<char>),
    Inconclusive,
}

impl View for ProbeState {
    type V = ProbeView;

    open spec fn view(&self) -> ProbeView {
        match self {
            ProbeState::Online => ProbeView::Online,
            ProbeState::Captive(url) => ProbeView::Captive(url@),
            ProbeState::Unreachable(e) => ProbeView::Unreachable(e@),
            ProbeState::Inconclusive => ProbeView::Inconclusive,
        }
    }
}

/// What a probe of `host` found: only a response without a `Location`, with status 200 or
/// 204, shows that the network is open; only a `Location` that leads off the host shows the
/// portal.
pub open spec fn probe_state(host: Seq<char>, reply: ReplyView) -> ProbeView {
    match reply {
        Err(e) => ProbeView::Unreachable(e),
        Ok(resp) => match header_value(resp.headers, "Location"@) {
            Some(loc) => match captive(host, loc) {
                Some(url) => ProbeView::Captive(url),
                None => ProbeView::Inconclusive,
            },
            None => if resp.status == 200 || resp.status == 204 {
                ProbeView::Online
            } else {
                ProbeView::Inconclusive
            },
        },
    }
}

/// The request of a probe.
pub open spec fn probe_call_of(host: Seq<char>, path: Seq<char>) -> CallView {
    CallView {
        method: "GET"@,
        url: "http://"@ + host + path,
        headers: Seq::empty().push(("Accept"@, "*/*"@)),
        body: None,
    }
}

/// The request of a probe.
pub fn probe_call(host: &str, path: &str) -> (r: Call)
    ensures
        r@ == probe_call_of(host@, path@),
{
    let mut headers: Vec<(String, String)> = Vec::new();
    assert(pairs(headers@) == Seq::<(Seq<char>, Seq<char>)>::empty());
    add_header(&mut headers, "Accept", "*/*");
    Call { method: "GET".to_owned(), url: join3("http://", host, path), headers, body: None }
}

// ---------------------------------------------------------------------------
// The login page
// ---------------------------------------------------------------------------

/// The end of a URL's path: a question mark or a number sign.
pub open spec fn ends_path() -> spec_fn(char) -> bool {
    |c: char| c == '?' || c == '#'
}

/// The end of a URL's authority, which is where its path begins.
pub open spec fn path_start(url: Seq<char>) -> int {
    scheme_len(url) + authority(url).len()
}

/// The path of a URL, without query and fragment.
pub open spec fn path_of(url: Seq<char>) -> Seq<char> {
    let rest = url.skip(path_start(url));
    rest.take(first_stop(rest, 0, ends_path()))
}

/// The directory that a path names, without the slashes at its end: what stands before its
/// last slash.
pub open spec fn directory_of(path: Seq<char>) -> Seq<char> {
    match last_where(path, at_char('/'), path.len() as int) {
        Some(slash) => without_end_slashes(path.take(slash)),
        None => Seq::empty(),
    }
}

/// Where a redirect from `url` leads: a path is completed with the base of `url`; anything
/// that is no address of its own is taken in the directory of `url`.
pub open spec fn redirect_url(url: Seq<char>, location: Seq<char>) -> Seq<char> {
    let loc = trim(location);
    if loc.len() > 0 && loc[0] == '/' {
        base_of(url) + loc
    } else if is_address(loc) {
        loc
    } else {
        url.take(path_start(url)) + directory_of(path_of(url)) + "/"@ + loc
    }
}

/// The cookie that a response sets: the first part of the first `Set-Cookie` header.
pub open spec fn cookie_of(headers: Seq<(Seq<char>, Seq<char>)>) -> Seq<char> {
    match header_value(headers, "Set-Cookie"@) {
        Some(c) => cookie_part(c),
        None => Seq::empty(),
    }
}

/// The part of a `Set-Cookie` header that is sent back.
pub open spec fn cookie_part(value: Seq<char>) -> Seq<char> {
    trim(value.take(first_stop(value, 0, at_char(';'))))
}

/// What a request for the login page came to.
#[derive(Debug)]
pub enum PageStep {
    /// A redirect to follow.
    Follow(String),
    /// The page and the cookie that came with it.
    Page { html: String, cookie: String },
    /// No page: the reason.
    Failed(String),
}

/// What a request for the login page came to, as plain values.
#[verifier::ext_equal]
pub enum PageView {
    Follow(Seq<char>),
    Page { html: Seq<char>, cookie: Seq<char> },
    Failed(Seq<char>),
}

impl View for PageStep {
    type V = PageView;

    open spec fn view(&self) -> PageView {
        match self {
            PageStep::Follow(url) => PageView::Follow(url@),
            PageStep::Page { html, cookie } => PageView::Page { html: html@, cookie: cookie@ },
            PageStep::Failed(e) => PageView::Failed(e@),
        }
    }
}

/// What the request for the login page at `url` came to, after `hop` redirects. The third
/// redirect is one too many.
pub open spec fn page_step(url: Seq<char>, hop: int, reply: ReplyView) -> PageView {
    match reply {
        Err(e) => PageView::Failed(e),
        Ok(resp) => match header_value(resp.headers, "Location"@) {
            Some(loc) => if hop >= 2 {
                PageView::Failed("跳转次数过多, 未拿到登录页"@)
            } else {
                PageView::Follow(redirect_url(url, loc))
            },
            None => if resp.status != 200 {
                PageView::Failed("登录页 HTTP "@ + dec(resp.status as nat))
            } else {
                PageView::Page { html: body_text(resp.body), cookie: cookie_of(resp.headers) }
            },
        },
    }
}

/// The log lines of a request for the login page: each redirect is one.
pub open spec fn page_step_lines(url: Seq<char>, reply: ReplyView) -> Seq<Seq<char>> {
    match reply {
        Err(_) => Seq::empty(),
        Ok(resp) => match header_value(resp.headers, "Location"@) {
            Some(loc) => Seq::empty().push(
                "  跳转 "@ + url + " -> "@ + redirect_url(url, loc),
            ),
            None => Seq::empty(),
        },
    }
}

/// The request for the login page.
pub open spec fn page_call_of(ua: Seq<char>, url: Seq<char>) -> CallView {
    CallView { method: "GET"@, url, headers: browser_headers(ua), body: None }
}

/// The headers that a browser sends.
pub open spec fn browser_headers(ua: Seq<char>) -> Seq<(Seq<char>, Seq<char>)> {
    Seq::empty().push(("User-Agent"@, ua)).push(
        ("Accept"@, "text/html,application/xhtml+xml,application/xml;q=0.9,*/*;q=0.8"@),
    ).push(("Accept-Language"@, "zh-CN,zh;q=0.9"@))
}

/// The headers that a browser sends.
pub(crate) fn headers_of_browser(ua: &str) -> (r: Vec<(String, String)>)
    ensures
        pairs(r@) == browser_headers(ua@),
{
    let mut headers: Vec<(String, String)> = Vec::new();
    assert(pairs(headers@) == Seq::<(Seq<char>, Seq<char>)>::empty());
    add_header(&mut headers, "User-Agent", ua);
    add_header(
        &mut headers,
        "Accept",
        "text/html,application/xhtml+xml,application/xml;q=0.9,*/*;q=0.8",
    );
    add_header(&mut headers, "Accept-Language", "zh-CN,zh;q=0.9");
    headers
}

/// The part of a `Set-Cookie` header that is sent back.
pub(crate) fn cookie_to_keep(value: &str) -> (r: String)
    ensures
        r@ == cookie_part(value@),
{
    let chars = chars_of(value);
    let end = scan_to_char(&chars, 0, ';');
    let part = &chars[0..end];
    assert(part@ == value@.take(end as int));
    text_of(trimmed(part))
}

/// Whether `c` ends a URL's path.
fn is_path_end(c: char) -> (r: bool)
    ensures
        r == (c == '?' || c == '#'),
{
    c == '?' || c == '#'
}

/// The directory that a path names.
fn directory(path: &[char]) -> (r: String)
    ensures
        r@ == directory_of(path@),
{
    let mut end: usize = path.len();
    while end > 0
        invariant
            end <= path@.len(),
            last_where(path@, at_char('/'), path@.len() as int) == last_where(
                path@,
                at_char('/'),
                end as int,
            ),
        decreases end,
    {
        if path[end - 1] == '/' {
            let head = &path[0..end - 1];
            assert(head@ == path@.take(end - 1));
            return cut_end_slashes(&text_of(head));
        }
        end -= 1;
    }
    String::new()
}

/// The URL up to its path, and the directory of its path.
fn directory_parts(url: &str) -> (r: (String, String))
    ensures
        r.0@ == url@.take(path_start(url@)),
        r.1@ == directory_of(path_of(url@)),
{
    let chars = chars_of(url);
    let (_, start) = authority_span(&chars);
    let rest = &chars[start..chars.len()];
    assert(rest@ == url@.skip(path_start(url@)));
    let end = scan_to(rest, 0, is_path_end, Ghost(ends_path()));
    let path = &rest[0..end];
    assert(path@ == path_of(url@));
    let head = &chars[0..start];
    assert(head@ == url@.take(path_start(url@)));
    (text_of(head), directory(path))
}

/// Where a redirect from `url` leads.
fn follow(url: &str, location: &str) -> (r: String)
    ensures
        r@ == redirect_url(url@, location@),
{
    let chars = chars_of(location);
    let loc = trimmed(&chars);
    let target = text_of(loc);
    if loc.len() > 0 && loc[0] == '/' {
        join2(&url_base(url), &target)
    } else if is_web_address(loc) {
        target
    } else {
        let (head, dir) = directory_parts(url);
        join4(&head, &dir, "/", &target)
    }
}

// ---------------------------------------------------------------------------
// The engine
// ---------------------------------------------------------------------------

/// A client of the portal.
#[derive(Debug)]
pub struct Auth {
    /// The whole user agent.
    pub ua: String,
    /// Whether the user agent is that of a phone.
    pub is_mobile: bool,
    pub client: HttpClient,
    /// The address of the portal, where one is given: its base, or that of its login page.
    pub portal_url: Option<String>,
    /// The base of the portal that the last login found.
    pub discovered_base: Option<String>,
}

/// A client of the portal, as plain values.
#[verifier::ext_equal]
pub struct AuthView {
    pub ua: Seq<char>,
    pub is_mobile: bool,
    pub source: Option<Ipv4>,
    pub portal_url: Option<Seq<char>>,
    pub discovered_base: Option<Seq<char>>,
}

impl View for Auth {
    type V = AuthView;

    open spec fn view(&self) -> AuthView {
        AuthView {
            ua: self.ua@,
            is_mobile: self.is_mobile,
            source: self.client.source,
            portal_url: opt_text(self.portal_url),
            discovered_base: opt_text(self.discovered_base),
        }
    }
}

/// The name of a kind of device.
pub open spec fn device_label_of(mobile: bool) -> Seq<char> {
    if mobile {
        "手机端"@
    } else {
        "电脑端"@
    }
}

/// What to do where an account is in use elsewhere.
pub open spec fn advice() -> Seq<Seq<char>> {
    Seq::empty().push("---- 请手动下线后重试 ----"@).push(
        "1. 打开自助管理界面: "@ + SELF_SERVICE_URL@,
    ).push("2. 在「在线设备 / 终端管理」中手动下线占用槽位的设备"@).push(
        "3. 回到本程序重新点击认证"@,
    ).push(
        "说明: 账号限 1 台电脑 + 1 台手机同时在线; 本程序不会自动顶号."@,
    )
}

/// The address to try, where one is given that is not blank.
pub open spec fn given_address(url: Option<Seq<char>>) -> Option<Seq<char>> {
    match url {
        Some(u) => if trim(u).len() == 0 {
            None
        } else {
            Some(u)
        },
        None => None,
    }
}

impl Auth {
    /// A client that sends from `source`. The kind `mobile` is one of the phones, which the
    /// moment of the clock selects; `pc` is a computer; any other kind is taken as
    /// the user agent itself, and is a phone where it says `Mobile`.
    pub fn new(ua_kind: &str, source: Option<Ipv4>) -> (r: Self)
        ensures
            r.client.source == source,
            r.client.timeout_secs == 8,
            r.portal_url is None,
            r.discovered_base is None,
            ua_kind@ == "mobile"@ ==> r.is_mobile && is_phone_agent(r.ua@) && exists|
                t: std::time::SystemTime,
            | r.ua@ == phone_agent_at(#[trigger] unix_time_at(t)),
            ua_kind@ == "pc"@ ==> r.ua@ == UA_PC@ && !r.is_mobile,
            ua_kind@ != "pc"@ && ua_kind@ != "mobile"@ ==> r.ua@ == ua_kind@ && r.is_mobile
                == contains(ua_kind@, "Mobile"@),
    {
        proof {
            reveal_strlit("pc");
            reveal_strlit("mobile");
            assert("pc"@.len() != "mobile"@.len());
        }
        let (ua, is_mobile) = if same_text(ua_kind, "mobile") {
            (random_mobile_ua(), true)
        } else if same_text(ua_kind, "pc") {
            (UA_PC.to_owned(), false)
        } else {
            (ua_kind.to_owned(), contains_text(&chars_of(ua_kind), &chars_of("Mobile")))
        };
        Auth {
            ua,
            is_mobile,
            client: HttpClient::new(source),
            portal_url: None,
            discovered_base: None,
        }
    }

    /// Sets the address of the portal. A blank one counts as none.
    pub fn set_portal_url(&mut self, url: Option<String>)
        ensures
            final(self)@ == (AuthView { portal_url: given_address(opt_text(url)), ..old(self)@ }),
            final(self).client == old(self).client,
    {
        self.portal_url = match url {
            Some(u) => if is_blank(&u) {
                None
            } else {
                Some(u)
            },
            None => None,
        };
    }

    /// The name of the kind of device.
    pub fn device_label(&self) -> (r: &'static str)
        ensures
            r@ == device_label_of(self.is_mobile),
    {
        if self.is_mobile {
            "手机端"
        } else {
            "电脑端"
        }
    }

    /// What a probe of `host` found, by what the request came to.
    pub fn probe_one(&self, host: &str, reply: &Reply) -> (r: ProbeState)
        ensures
            r@ == probe_state(host@, reply_view(*reply)),
    {
        match reply {
            Ok(resp) => {
                if let Some(loc) = resp.header("Location") {
                    return match captive_target(host, loc) {
                        Some(url) => ProbeState::Captive(url),
                        None => ProbeState::Inconclusive,
                    };
                }
                if resp.status == 200 || resp.status == 204 {
                    ProbeState::Online
                } else {
                    ProbeState::Inconclusive
                }
            },
            Err(e) => ProbeState::Unreachable(e.as_str().to_owned()),
        }
    }

    /// The request for the login page.
    pub fn page_call(&self, url: &str) -> (r: Call)
        ensures
            r@ == page_call_of(self.ua@, url@),
    {
        Call {
            method: "GET".to_owned(),
            url: url.to_owned(),
            headers: headers_of_browser(&self.ua),
            body: None,
        }
    }

    /// Goes on from what the request for the login page at `url` came to, after `hop`
    /// redirects: what to log, and what it came to.
    pub fn fetch_login_page(&self, url: &str, hop: u8, reply: &Reply) -> (r: (
        Vec<String>,
        PageStep,
    ))
        requires
            reply matches Ok(resp) ==> fits_decoder(resp.body@.len()),
        ensures
            texts(r.0@) == page_step_lines(url@, reply_view(*reply)),
            r.1@ == page_step(url@, hop as int, reply_view(*reply)),
    {
        let mut lines: Vec<String> = Vec::new();
        assert(texts(lines@) == Seq::<Seq<char>>::empty());
        let resp = match reply {
            Ok(resp) => resp,
            Err(e) => {
                return (lines, PageStep::Failed(e.as_str().to_owned()));
            },
        };
        if let Some(loc) = resp.header("Location") {
            let next = follow(url, loc);
            note(&mut lines, join4("  跳转 ", url, " -> ", &next));
            if hop >= 2 {
                return (lines, PageStep::Failed("跳转次数过多, 未拿到登录页".to_owned()));
            }
            return (lines, PageStep::Follow(next));
        }
        if resp.status != 200 {
            return (
                lines,
                PageStep::Failed(join2("登录页 HTTP ", &dec_text(resp.status as u64))),
            );
        }
        let html = decode_body(&resp.body);
        let cookie = match resp.header("Set-Cookie") {
            Some(c) => cookie_to_keep(c),
            None => String::new(),
        };
        assert(cookie@ == cookie_of(resp@.headers));
        (lines, PageStep::Page { html, cookie })
    }

    /// What to do where the account is in use elsewhere. Nothing is ever taken offline on
    /// its own.
    pub fn print_manual_offline_advice(&self) -> (r: Vec<String>)
        ensures
            texts(r@) == advice(),
    {
        let mut lines: Vec<String> = Vec::new();
        assert(texts(lines@) == Seq::<Seq<char>>::empty());
        note(&mut lines, "---- 请手动下线后重试 ----".to_owned());
        note(&mut lines, join2("1. 打开自助管理界面: ", SELF_SERVICE_URL));
        note(&mut lines, "2. 在「在线设备 / 终端管理」中手动下线占用槽位的设备".to_owned());
        note(&mut lines, "3. 回到本程序重新点击认证".to_owned());
        note(
            &mut lines,
            "说明: 账号限 1 台电脑 + 1 台手机同时在线; 本程序不会自动顶号.".to_owned(),
        );
        lines
    }
}

// ---------------------------------------------------------------------------
// Laws
// ---------------------------------------------------------------------------

/// There is always something to probe.
pub proof fn law_there_are_targets(setting: Option<Seq<char>>)
    ensures
        targets_for(setting).len() > 0,
{
}

/// An absolute address is the portal's exactly where its host is another one: neither the
/// case of letters, nor a leading `www`, nor the scheme, the port or the path make a host
/// another.
pub proof fn law_only_another_host_is_the_portal(requested: Seq<char>, location: Seq<char>)
    requires
        has_scheme(trim(location)),
        host_of(requestable(trim(location))).len() > 0,
    ensures
        captive(requested, location) == (if same_host(
            host_of(requestable(trim(location))),
            requested,
        ) {
            None
        } else {
            Some(requestable(trim(location)))
        }),
{
}

/// An address of the web is absolute, and is requested as it is.
pub proof fn law_web_address_stays(url: Seq<char>)
    requires
        is_address(url),
    ensures
        has_scheme(url),
        requestable(url) == url,
{
    reveal_strlit("http://");
    reveal_strlit("https://");
    reveal_strlit("http");
    reveal_strlit("https");
    reveal_strlit("://");
    let k: int = if starts_with(url, "http://"@) {
        4
    } else {
        5
    };
    lemma_first_stop(url, 0, off_scheme());
    let head = url.subrange(0, k + 3);
    assert(forall|i: int| 0 <= i < k + 3 ==> #[trigger] head[i] == url[i]);
    assert(head == "http://"@ || head == "https://"@);
    assert forall|i: int| 0 <= i < k implies is_scheme_char(#[trigger] url[i]) by {
        assert(url[i] == head[i]);
    }
    assert(url[k] == head[k]);
    assert(off_scheme()(url[k]));
    if scheme_end(url) < k {
        assert(is_scheme_char(url[scheme_end(url)]));
    }
    assert(scheme_end(url) == k);
    assert(url.subrange(k, k + 3) == head.subrange(k, k + 3));
    assert(head.subrange(k, k + 3) == "://"@);
    let scheme = url.take(k);
    assert(scheme == head.take(k));
    if k == 4 {
        assert(lower(scheme).len() == 4);
        assert(scheme == "http"@);
    } else {
        assert(scheme == "https"@);
        assert(lower(scheme) == "https"@);
    }
    assert(scheme + url.skip(k) == url);
}

/// What the portal leads to can be requested: it is an address of its own, whatever the
/// portal wrote.
pub proof fn law_portal_address_is_absolute(requested: Seq<char>, location: Seq<char>)
    ensures
        captive(requested, location) matches Some(u) ==> starts_with(u, "http://"@) || starts_with(
            u,
            "https://"@,
        ),
{
    let loc = trim(location);
    let u = "http://"@ + requested + loc;
    let v = "http://"@ + requested + "/"@ + loc;
    reveal_strlit("http://");
    reveal_strlit("https://");
    reveal_strlit("http");
    reveal_strlit("https");
    reveal_strlit("://");
    assert(u.subrange(0, 7) == "http://"@);
    assert(v.subrange(0, 7) == "http://"@);
    if has_scheme(loc) {
        let k = scheme_end(loc);
        let url = requestable(loc);
        lemma_first_stop(loc, 0, off_scheme());
        assert(loc.skip(k).subrange(0, 3) == loc.subrange(k, k + 3));
        assert(loc.skip(k).subrange(0, 3) == "://"@);
        assert(forall|i: int| 0 <= i < 3 ==> #[trigger] loc.skip(k)[i] == "://"@[i]);
        if lower(loc.take(k)) == "https"@ {
            assert(url.subrange(0, 8) == "https://"@);
        } else {
            assert(url.subrange(0, 7) == "http://"@);
        }
    }
}

/// A page on which a field for the password is found looks like one of a portal.
pub proof fn law_password_page_looks_like_a_portal(html: Seq<char>)
    ensures
        password_field(form_inputs(html)) is Some ==> looks_like_portal(html),
{
    if password_field(form_inputs(html)) is Some {
        lemma_password_field_has_a_tag(html);
    }
}

/// A path is the portal's, and is completed with the host that was requested.
pub proof fn law_path_is_completed(requested: Seq<char>, location: Seq<char>)
    requires
        trim(location).len() > 0,
        trim(location)[0] == '/',
    ensures
        captive(requested, location) == Some("http://"@ + requested + trim(location)),
{
}

/// A path without a slash in front is completed too, unless it begins with the host that
/// was requested.
pub proof fn law_bare_path_is_completed(requested: Seq<char>, location: Seq<char>)
    requires
        !has_scheme(trim(location)),
        trim(location).len() > 0 && trim(location)[0] != '/',
        host_of(trim(location)).len() > 0,
        !same_host(host_of(trim(location)), requested),
    ensures
        captive(requested, location) == Some("http://"@ + requested + "/"@ + trim(location)),
{
}

/// A redirect to a name without a slash stays in the directory that it was met in, however
/// the URL goes on: file, query and fragment make no difference.
pub proof fn law_redirect_stays_in_the_directory(
    host: Seq<char>,
    dir: Seq<char>,
    file: Seq<char>,
    location: Seq<char>,
)
    requires
        forall|i: int| 0 <= i < host.len() ==> !ends_authority()(#[trigger] host[i]),
        forall|i: int| 0 <= i < dir.len() ==> !ends_path()(#[trigger] dir[i]),
        dir.len() > 0 ==> dir[0] == '/' && dir.last() != '/',
        forall|i: int|
            0 <= i < first_stop(file, 0, ends_path()) ==> #[trigger] file[i] != '/',
        !is_address(trim(location)),
        trim(location).len() > 0 ==> trim(location)[0] != '/',
    ensures
        redirect_url("http://"@ + host + dir + "/"@ + file, location) == "http://"@ + host + dir
            + "/"@ + trim(location),
{
    reveal_strlit("http://");
    reveal_strlit("/");
    let url = "http://"@ + host + dir + "/"@ + file;
    let tail = dir + "/"@ + file;
    assert(url.subrange(0, 7) == "http://"@);
    assert(scheme_len(url) == 7);
    let rest = url.skip(7);
    assert(rest == host + tail);
    lemma_first_stop(rest, 0, ends_authority());
    let stop = first_stop(rest, 0, ends_authority());
    assert(rest[host.len() as int] == '/');
    assert(ends_authority()(rest[host.len() as int]));
    if stop < host.len() {
        assert(rest[stop] == host[stop]);
    }
    assert(stop == host.len());
    assert(authority(url) == host);
    assert(url.skip(path_start(url)) == tail);
    let path = path_of(url);
    let end = first_stop(file, 0, ends_path());
    lemma_first_stop(file, 0, ends_path());
    lemma_first_stop(tail, 0, ends_path());
    let cut = first_stop(tail, 0, ends_path());
    let n = dir.len() as int;
    assert(forall|i: int| 0 <= i < n ==> #[trigger] tail[i] == dir[i]);
    assert(tail[n] == '/');
    assert(forall|i: int| n < i < tail.len() ==> #[trigger] tail[i] == file[i - n - 1]);
    assert(cut == n + 1 + end) by {
        if cut < n {
            assert(!ends_path()(dir[cut]));
        } else if cut == n {
            assert(!ends_path()(tail[n]));
        } else if cut < n + 1 + end {
            assert(!ends_path()(file[cut - n - 1]));
        } else if n + 1 + end < cut {
            assert(tail[n + 1 + end] == file[end]);
            assert(!ends_path()(tail[n + 1 + end]));
        }
    }
    assert(path == tail.take(cut));
    lemma_last_where(path, at_char('/'), path.len() as int);
    assert(path[n] == '/');
    assert(at_char('/')(path[n]));
    let slash = last_where(path, at_char('/'), path.len() as int)->0;
    if slash > n {
        assert(path[slash] == file[slash - n - 1]);
    }
    assert(path.take(n) == dir);
    if n > 0 {
        assert(dir.last() == dir[n - 1]);
    }
    assert(without_end_slashes(dir) == dir);
    assert(url.take(path_start(url)) == "http://"@ + host);
    assert("http://"@ + host + dir + "/"@ + trim(location) == ("http://"@ + host) + dir + "/"@
        + trim(location));
}

/// A redirect from an address leads to an address, whatever the portal wrote.
pub proof fn law_redirect_is_absolute(url: Seq<char>, location: Seq<char>)
    requires
        is_address(url),
    ensures
        is_address(redirect_url(url, location)),
{
    reveal_strlit("http://");
    reveal_strlit("https://");
    reveal_strlit("http");
    reveal_strlit("https");
    reveal_strlit("://");
    let loc = trim(location);
    let n = scheme_len(url);
    lemma_first_stop(url.skip(n), 0, ends_authority());
    let base = base_of(url) + loc;
    let below = url.take(path_start(url)) + directory_of(path_of(url)) + "/"@ + loc;
    assert(n <= path_start(url) <= url.len());
    assert(below.subrange(0, n) == url.subrange(0, n));
    assert("http"@ + "://"@ == "http://"@);
    assert("https"@ + "://"@ == "https://"@);
    if starts_with(url, "https://"@) {
        assert(base == "https://"@ + (authority(url) + loc));
        assert(base.subrange(0, 8) == "https://"@);
        if starts_with(url, "http://"@) {
            assert(url.subrange(0, 7)[4] == url.subrange(0, 8)[4]);
        }
    } else {
        assert(base == "http://"@ + (authority(url) + loc));
        assert(base.subrange(0, 7) == "http://"@);
    }
}

/// A base is a base: taking it again changes nothing, and it has the host of the URL.
pub proof fn law_base_is_its_own_base(url: Seq<char>)
    ensures
        base_of(base_of(url)) == base_of(url),
        host_of(base_of(url)) == host_of(url),
{
    reveal_strlit("http://");
    reveal_strlit("https://");
    reveal_strlit("http");
    reveal_strlit("https");
    reveal_strlit("://");
    let rest = url.skip(scheme_len(url));
    let a = authority(url);
    let b = base_of(url);
    lemma_first_stop(rest, 0, ends_authority());
    assert("http"@ + "://"@ == "http://"@);
    assert("https"@ + "://"@ == "https://"@);
    if starts_with(url, "https://"@) {
        assert(url.subrange(0, 8) == "https://"@);
        assert(url.subrange(0, 8)[4] == url[4]);
        assert(url[4] == 's');
        if starts_with(url, "http://"@) {
            assert(url.subrange(0, 7)[4] == url[4]);
            assert("http://"@[4] == ':');
        }
        assert(b == "https://"@ + a);
        assert(b.subrange(0, 8) == "https://"@);
        assert(b[4] == 's');
        if starts_with(b, "http://"@) {
            assert(b.subrange(0, 7)[4] == b[4]);
            assert("http://"@[4] == ':');
        }
        assert(b.skip(8) == a);
    } else {
        assert(b == "http://"@ + a);
        assert(b.subrange(0, 7) == "http://"@);
        assert(b[4] == ':');
        if starts_with(b, "https://"@) {
            assert(b.subrange(0, 8)[4] == b[4]);
            assert("https://"@[4] == 's');
        }
        assert(b.skip(7) == a);
    }
    assert forall|i: int| 0 <= i < a.len() implies !ends_authority()(#[trigger] a[i]) by {
        assert(a[i] == rest[i]);
    }
    lemma_first_stop(a, 0, ends_authority());
    assert(a.take(a.len() as int) == a);
}

} // verus!
