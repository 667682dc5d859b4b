//! Where the portal is, and whether the network is open.
use vstd::prelude::*;
use crate::auth::{
    authority, bare_host, base_of, builtin_targets, captive, ends_authority, entry_target,
    has_scheme, host_of, is_address, law_web_address_stays, listed_targets, looks_like_portal,
    off_scheme, probe_state, redirect_url, requestable, scheme_len, targets_for, AuthView,
    ProbeView,
};
use crate::common::body_text;
use crate::detect::{
    connectivity, decides, detect_after_reply, detect_first, ArrivalView, DetectNextView,
    DetectStageView, TargetsView,
};
use crate::http::ReplyView;
use crate::laws::http::lemma_stops_at;
use crate::laws::login::{
    answer, fetching, leads_nowhere, lemma_location, lemma_no_location, probing,
};
use crate::laws::text::{
    all_white, is_free_of, is_tight, lacks, law_begins_with, law_contained_or_free, law_first_piece,
    law_single_piece, law_trimming_drops_white_space,
};
use crate::page::holds_password_input;
use crate::text::{
    at_char, first_stop, first_where, lemma_first_stop, lemma_first_where, lemma_somes_parts, lower,
    occurs_at, same_ignoring_case_spec, somes, split_on, starts_with,
};

verus! {

// ---------------------------------------------------------------------------
// Addresses
// ---------------------------------------------------------------------------

/// A host, as an address writes it: none of the signs that end one.
pub open spec fn is_plain_host(host: Seq<char>) -> bool {
    lacks(host, '/') && lacks(host, '?') && lacks(host, '#') && lacks(host, ':')
}

/// What may follow a host and its port: nothing, a path, a query or a fragment.
pub open spec fn follows_host(rest: Seq<char>) -> bool {
    rest.len() > 0 ==> rest[0] == '/' || rest[0] == '?' || rest[0] == '#'
}

/// The port of an address, with its colon, or nothing.
pub open spec fn is_port(port: Seq<char>) -> bool {
    port.len() > 0 ==> port[0] == ':' && lacks(port, '/') && lacks(port, '?') && lacks(port, '#')
}

/// The scheme of an address of the web.
pub open spec fn web_scheme(secure: bool) -> Seq<char> {
    if secure {
        "https://"@
    } else {
        "http://"@
    }
}

/// The scheme of an address is seen.
proof fn lemma_scheme(secure: bool, rest: Seq<char>)
    ensures
        scheme_len(web_scheme(secure) + rest) == web_scheme(secure).len(),
        (web_scheme(secure) + rest).skip(web_scheme(secure).len() as int) == rest,
        starts_with(web_scheme(secure) + rest, "https://"@) == secure,
        starts_with(web_scheme(secure) + rest, "http://"@) == !secure,
        web_scheme(secure).len() > 0,
{
    reveal_strlit("http://");
    reveal_strlit("https://");
    let url = web_scheme(secure) + rest;
    law_begins_with(rest, web_scheme(secure));
    if secure {
        assert(url[4] == 's');
        if starts_with(url, "http://"@) {
            assert(url.subrange(0, 7)[4] == ':');
        }
    } else {
        assert(url[4] == ':');
        if starts_with(url, "https://"@) {
            assert(url.subrange(0, 8)[4] == 's');
        }
    }
}

/// The authority of a URL ends where a path, a query or a fragment begins.
proof fn lemma_authority(hostport: Seq<char>, rest: Seq<char>)
    requires
        lacks(hostport, '/') && lacks(hostport, '?') && lacks(hostport, '#'),
        follows_host(rest),
    ensures
        first_stop(hostport + rest, 0, ends_authority()) == hostport.len(),
        (hostport + rest).take(hostport.len() as int) == hostport,
{
    let s = hostport + rest;
    let n = hostport.len() as int;
    lemma_first_stop(s, 0, ends_authority());
    let k = first_stop(s, 0, ends_authority());
    if k < n {
        assert(s[k] == hostport[k]);
    }
    if rest.len() > 0 && k > n {
        assert(s[n] == rest[0]);
        assert(!ends_authority()(s[n]));
    }
    assert(s.take(n) == hostport);
}

/// The host in an authority ends at the colon.
proof fn lemma_host(host: Seq<char>, port: Seq<char>)
    requires
        is_plain_host(host),
        is_port(port),
    ensures
        (host + port).take(first_stop(host + port, 0, at_char(':'))) == host,
        lacks(host + port, '/') && lacks(host + port, '?') && lacks(host + port, '#'),
{
    let s = host + port;
    let n = host.len() as int;
    if port.len() > 0 {
        assert(s[n] == ':');
        assert(forall|i: int| 0 <= i < n ==> #[trigger] s[i] == host[i]);
        lemma_stops_at(s, ':', n);
    } else {
        assert(s == host);
        lemma_first_stop(host, 0, at_char(':'));
        if first_stop(host, 0, at_char(':')) < n {
            assert(host[first_stop(host, 0, at_char(':'))] != ':');
        }
    }
    assert(s.take(n) == host);
    assert forall|i: int| 0 <= i < s.len() implies #[trigger] s[i] != '/' && s[i] != '?' && s[i]
        != '#' by {
        if i < n {
            assert(s[i] == host[i]);
        } else {
            assert(s[i] == port[i - n]);
        }
    }
}

/// The host of an address is what stands between the scheme and the port, the path, the
/// query or the fragment; its base is the scheme, the host and the port.
pub proof fn law_address_has_host_and_base(
    secure: bool,
    host: Seq<char>,
    port: Seq<char>,
    rest: Seq<char>,
)
    requires
        is_plain_host(host),
        is_port(port),
        follows_host(rest),
    ensures
        host_of(web_scheme(secure) + host + port + rest) == host,
        base_of(web_scheme(secure) + host + port + rest) == web_scheme(secure) + host + port,
{
    reveal_strlit("http://");
    reveal_strlit("https://");
    reveal_strlit("http");
    reveal_strlit("https");
    reveal_strlit("://");
    let hostport = host + port;
    let url = web_scheme(secure) + host + port + rest;
    assert(url =~= web_scheme(secure) + (hostport + rest));
    lemma_scheme(secure, hostport + rest);
    lemma_host(host, port);
    lemma_authority(hostport, rest);
    assert(authority(url) == hostport);
    assert("http"@ + "://"@ =~= "http://"@);
    assert("https"@ + "://"@ =~= "https://"@);
    assert(base_of(url) =~= web_scheme(secure) + host + port);
}

/// Without a scheme, the host is what stands in front.
pub proof fn law_bare_address_has_host_and_base(host: Seq<char>, port: Seq<char>, rest: Seq<char>)
    requires
        is_plain_host(host),
        is_port(port),
        follows_host(rest),
        !is_address(host + port + rest),
    ensures
        host_of(host + port + rest) == host,
        base_of(host + port + rest) == "http://"@ + host + port,
{
    reveal_strlit("http://");
    reveal_strlit("http");
    reveal_strlit("://");
    let hostport = host + port;
    let url = host + port + rest;
    assert(url =~= hostport + rest);
    assert(url.skip(0) =~= url);
    lemma_host(host, port);
    lemma_authority(hostport, rest);
    assert(authority(url) == hostport);
    assert("http"@ + "://"@ =~= "http://"@);
    assert(base_of(url) =~= "http://"@ + host + port);
}

// ---------------------------------------------------------------------------
// Redirects of a probe
// ---------------------------------------------------------------------------

/// A host that does not begin with the label `www`, in letters of either case.
pub open spec fn has_no_www(host: Seq<char>) -> bool {
    forall|w: Seq<char>, x: Seq<char>| #[trigger] (w + x) == host ==> lower(w) != "www."@
}

/// A host without the label stays.
proof fn lemma_bare_host(host: Seq<char>, label: Seq<char>)
    requires
        has_no_www(host),
        lower(label) == "www."@,
    ensures
        bare_host(host) == host,
        bare_host(label + host) == host,
{
    reveal_strlit("www.");
    assert(lower(label).len() == label.len());
    if starts_with(lower(host), "www."@) {
        law_begins_with(lower(host), "www."@);
        assert(lower(host).len() == host.len());
        let (w, x) = (host.take(4), host.skip(4));
        assert(w + x =~= host);
        assert(lower(w) =~= lower(host).subrange(0, 4));
        assert(false);
    }
    let long = label + host;
    assert(lower(long) =~= "www."@ + lower(host));
    law_begins_with(lower(host), "www."@);
    assert(long.skip(4) =~= host);
}

/// A redirect that stays on the host is an ordinary one, be it to `https`, in letters of
/// another case, to or from the label `www`, to another port or to another path.
pub proof fn law_same_host_is_ordinary(
    requested: Seq<char>,
    host: Seq<char>,
    label: Seq<char>,
    secure: bool,
    port: Seq<char>,
    rest: Seq<char>,
    before: Seq<char>,
    after: Seq<char>,
)
    requires
        is_plain_host(host),
        is_plain_host(label),
        is_port(port),
        follows_host(rest),
        lower(requested) == lower(host),
        has_no_www(requested),
        has_no_www(host),
        lower(label) == "www."@,
        all_white(before),
        all_white(after),
        is_tight(web_scheme(secure) + host + port + rest),
        is_tight(web_scheme(secure) + (label + host) + port + rest),
    ensures
        captive(requested, before + (web_scheme(secure) + host + port + rest) + after) is None,
        captive(
            requested,
            before + (web_scheme(secure) + (label + host) + port + rest) + after,
        ) is None,
        captive(
            label + requested,
            before + (web_scheme(secure) + host + port + rest) + after,
        ) is None,
{
    lemma_joined_host(label, host);
    lemma_bare_host(requested, label);
    lemma_bare_host(host, label);
    lemma_captive(requested, host, secure, port, rest, before, after);
    lemma_captive(requested, label + host, secure, port, rest, before, after);
    lemma_captive(label + requested, host, secure, port, rest, before, after);
}

/// Two parts of a host make a host.
proof fn lemma_joined_host(label: Seq<char>, host: Seq<char>)
    requires
        is_plain_host(label),
        is_plain_host(host),
    ensures
        is_plain_host(label + host),
{
    let h = label + host;
    assert forall|i: int| 0 <= i < h.len() implies #[trigger] h[i] != '/' && h[i] != '?' && h[i]
        != '#' && h[i] != ':' by {
        if i < label.len() {
            assert(h[i] == label[i]);
        } else {
            assert(h[i] == host[i - label.len()]);
        }
    }
}

/// What a redirect to a host means goes by the hosts alone.
proof fn lemma_captive(
    requested: Seq<char>,
    host: Seq<char>,
    secure: bool,
    port: Seq<char>,
    rest: Seq<char>,
    before: Seq<char>,
    after: Seq<char>,
)
    requires
        is_plain_host(host),
        is_port(port),
        follows_host(rest),
        all_white(before),
        all_white(after),
        is_tight(web_scheme(secure) + host + port + rest),
    ensures
        lower(bare_host(host)) == lower(bare_host(requested)) ==> captive(
            requested,
            before + (web_scheme(secure) + host + port + rest) + after,
        ) is None,
        host.len() > 0 && lower(bare_host(host)) != lower(bare_host(requested)) ==> captive(
            requested,
            before + (web_scheme(secure) + host + port + rest) + after,
        ) == Some(web_scheme(secure) + host + port + rest),
{
    let plain = web_scheme(secure) + host + port + rest;
    law_trimming_drops_white_space(before, plain, after);
    law_address_has_host_and_base(secure, host, port, rest);
    assert(plain =~= web_scheme(secure) + (host + port + rest));
    lemma_web_address(secure, host + port + rest);
    lemma_same_host(bare_host(host), bare_host(requested));
}

/// Hosts that differ in case alone are the same.
proof fn lemma_same_host(a: Seq<char>, b: Seq<char>)
    ensures
        same_ignoring_case_spec(a, b) == (lower(a) == lower(b)),
{
}

/// An address of the web is one.
proof fn lemma_web_address(secure: bool, rest: Seq<char>)
    ensures
        is_address(web_scheme(secure) + rest),
        has_scheme(web_scheme(secure) + rest),
        requestable(web_scheme(secure) + rest) == web_scheme(secure) + rest,
        (web_scheme(secure) + rest)[0] == 'h',
{
    reveal_strlit("http://");
    reveal_strlit("https://");
    lemma_scheme(secure, rest);
    law_web_address_stays(web_scheme(secure) + rest);
}

/// A redirect to another host is the portal's, and leads to the address as it is written.
pub proof fn law_other_host_is_the_portal(
    requested: Seq<char>,
    host: Seq<char>,
    secure: bool,
    port: Seq<char>,
    rest: Seq<char>,
    before: Seq<char>,
    after: Seq<char>,
)
    requires
        host.len() > 0,
        is_plain_host(host),
        is_port(port),
        follows_host(rest),
        has_no_www(requested),
        has_no_www(host),
        lower(requested) != lower(host),
        all_white(before),
        all_white(after),
        is_tight(web_scheme(secure) + host + port + rest),
    ensures
        captive(requested, before + (web_scheme(secure) + host + port + rest) + after) == Some(
            web_scheme(secure) + host + port + rest,
        ),
{
    reveal_strlit("www.");
    assert(lower("www."@) =~= "www."@);
    lemma_bare_host(requested, "www."@);
    lemma_bare_host(host, "www."@);
    lemma_captive(requested, host, secure, port, rest, before, after);
}

/// A path is the portal's, and is requested of the host; white space around it makes no
/// difference, and nothing but white space leads nowhere.
pub proof fn law_path_is_requested_of_the_host(
    requested: Seq<char>,
    path: Seq<char>,
    before: Seq<char>,
    after: Seq<char>,
)
    requires
        all_white(before),
        all_white(after),
        is_tight("/"@ + path),
    ensures
        captive(requested, before + ("/"@ + path) + after) == Some(
            "http://"@ + requested + ("/"@ + path),
        ),
        captive(requested, before) is None,
{
    reveal_strlit("/");
    let none = Seq::<char>::empty();
    law_trimming_drops_white_space(before, "/"@ + path, after);
    assert(before + none + none =~= before);
    law_trimming_drops_white_space(before, none, none);
    assert(("/"@ + path)[0] == '/');
}

// ---------------------------------------------------------------------------
// Redirects of a page
// ---------------------------------------------------------------------------

/// A redirect of a page to a path goes to the host and port that the page came from; one to
/// an address goes there.
pub proof fn law_page_redirect_goes(
    secure: bool,
    host: Seq<char>,
    port: Seq<char>,
    rest: Seq<char>,
    before: Seq<char>,
    path: Seq<char>,
    after: Seq<char>,
    other: Seq<char>,
    to_secure: bool,
)
    requires
        is_plain_host(host),
        is_port(port),
        follows_host(rest),
        all_white(before),
        all_white(after),
        is_tight("/"@ + path),
        is_tight(web_scheme(to_secure) + other),
    ensures
        redirect_url(
            web_scheme(secure) + host + port + rest,
            before + ("/"@ + path) + after,
        ) == web_scheme(secure) + host + port + ("/"@ + path),
        redirect_url(
            web_scheme(secure) + host + port + rest,
            before + (web_scheme(to_secure) + other) + after,
        ) == web_scheme(to_secure) + other,
{
    reveal_strlit("/");
    law_trimming_drops_white_space(before, "/"@ + path, after);
    law_trimming_drops_white_space(before, web_scheme(to_secure) + other, after);
    law_address_has_host_and_base(secure, host, port, rest);
    lemma_web_address(to_secure, other);
    assert(("/"@ + path)[0] == '/');
}

// ---------------------------------------------------------------------------
// The look of a portal
// ---------------------------------------------------------------------------

/// A word by which a page looks like one of a portal.
pub open spec fn is_portal_word(word: Seq<char>) -> bool {
    word == "wlanuserip"@ || word == "portal"@ || word == "login.do"@ || word == "self/index"@
        || word == "bossweb"@ || word == "石斧"@ || word == "type=\"password\""@ || word
        == "type='password'"@
}

/// A page looks like one of a portal where it asks for a password, or where one of the words
/// stands in it, in letters of either case; and nowhere else.
pub proof fn law_portal_is_known_by_its_words(html: Seq<char>)
    ensures
        looks_like_portal(html) == (holds_password_input(html) || exists|word: Seq<char>| #[trigger]
            is_portal_word(word) && !is_free_of(lower(html), word)),
{
    let low = lower(html);
    law_contained_or_free(low, "wlanuserip"@);
    law_contained_or_free(low, "portal"@);
    law_contained_or_free(low, "login.do"@);
    law_contained_or_free(low, "self/index"@);
    law_contained_or_free(low, "bossweb"@);
    law_contained_or_free(low, "石斧"@);
    law_contained_or_free(low, "type=\"password\""@);
    law_contained_or_free(low, "type='password'"@);
    assert(is_portal_word("wlanuserip"@));
    assert(is_portal_word("portal"@));
    assert(is_portal_word("login.do"@));
    assert(is_portal_word("self/index"@));
    assert(is_portal_word("bossweb"@));
    assert(is_portal_word("石斧"@));
    assert(is_portal_word("type=\"password\""@));
    assert(is_portal_word("type='password'"@));
}

// ---------------------------------------------------------------------------
// Targets
// ---------------------------------------------------------------------------

/// An entry names a host and a path, or a host alone; blanks around it make no difference,
/// and a blank entry names nothing.
pub proof fn law_entry_names_a_target(
    before: Seq<char>,
    host: Seq<char>,
    path: Seq<char>,
    after: Seq<char>,
)
    requires
        all_white(before),
        all_white(after),
        host.len() > 0,
        lacks(host, '/'),
        is_tight(host),
        is_tight(host + "/"@ + path),
    ensures
        entry_target(before + (host + "/"@ + path) + after) == Some((host, "/"@ + path)),
        entry_target(before + host + after) == Some((host, "/"@)),
        entry_target(before) is None,
{
    reveal_strlit("/");
    let none = Seq::<char>::empty();
    let t = host + "/"@ + path;
    let n = host.len() as int;
    law_trimming_drops_white_space(before, t, after);
    law_trimming_drops_white_space(before, host, after);
    assert(before + none + none =~= before);
    law_trimming_drops_white_space(before, none, none);
    lemma_stops_at(t, '/', n);
    assert(t.take(n) == host);
    assert(t.skip(n) == "/"@ + path);
    lemma_first_stop(host, 0, at_char('/'));
    if first_stop(host, 0, at_char('/')) < n {
        assert(host[first_stop(host, 0, at_char('/'))] != '/');
    }
}

/// The entries of a list stand between commas, and each names its target in its turn.
pub proof fn law_list_names_targets(entry: Seq<char>, rest: Seq<char>)
    requires
        lacks(entry, ','),
    ensures
        listed_targets(entry + ","@ + rest) == (match entry_target(entry) {
            Some(t) => seq![t] + listed_targets(rest),
            None => listed_targets(rest),
        }),
        listed_targets(entry) == (match entry_target(entry) {
            Some(t) => seq![t],
            None => Seq::empty(),
        }),
{
    reveal_strlit(",");
    let sep = ","@;
    let s = entry + sep + rest;
    assert forall|i: int| 0 <= i < entry.len() implies !#[trigger] occurs_at(s, sep, i) by {
        if occurs_at(s, sep, i) {
            assert(s.subrange(i, i + 1)[0] == ',');
            assert(s[i] == entry[i]);
        }
    }
    law_first_piece(entry, sep, rest);
    assert(is_free_of(entry, sep)) by {
        assert forall|a: Seq<char>, b: Seq<char>| entry != #[trigger] (a + sep + b) by {
            if entry == a + sep + b {
                assert(entry[a.len() as int] == ',');
            }
        }
    }
    law_single_piece(entry, sep);
    let read = |e: Seq<char>| entry_target(e);
    let one = seq![entry];
    let pieces = split_on(rest, sep);
    assert((one + pieces).map_values(read) =~= one.map_values(read) + pieces.map_values(read));
    assert(one.map_values(read) =~= seq![entry_target(entry)]);
    lemma_somes_parts(one.map_values(read), pieces.map_values(read));
    let found = one.map_values(read);
    assert(found.drop_last() =~= Seq::empty());
    assert(somes(found.drop_last()) =~= Seq::empty());
    match entry_target(entry) {
        Some(t) => {
            assert(somes(found) =~= seq![t]);
        },
        None => {
            assert(somes(found) =~= Seq::empty());
            assert(Seq::empty() + listed_targets(rest) =~= listed_targets(rest));
        },
    }
}

/// Where no list names a target, three are built in.
pub proof fn law_three_targets_are_built_in(list: Seq<char>)
    ensures
        targets_for(None) == seq![
            ("www.msftconnecttest.com"@, "/connecttest.txt"@),
            ("connect.rom.miui.com"@, "/generate_204"@),
            ("www.baidu.com"@, "/"@),
        ],
        listed_targets(list).len() == 0 ==> targets_for(Some(list)) == targets_for(None),
        listed_targets(list).len() > 0 ==> targets_for(Some(list)) == listed_targets(list),
{
    assert(builtin_targets() =~= seq![
        ("www.msftconnecttest.com"@, "/connecttest.txt"@),
        ("connect.rom.miui.com"@, "/generate_204"@),
        ("www.baidu.com"@, "/"@),
    ]);
}

// ---------------------------------------------------------------------------
// The connectivity test and the search for the portal
// ---------------------------------------------------------------------------

/// A finding that decides nothing.
pub open spec fn is_undecided(a: ArrivalView) -> bool {
    a.2 is Unreachable || a.2 is Inconclusive
}

/// The first finding that decides does: an open network by the target that was reached, the
/// portal by the address that it leads to. Without one, the last error is told.
pub proof fn law_first_finding_decides(
    before: Seq<ArrivalView>,
    host: Seq<char>,
    path: Seq<char>,
    url: Seq<char>,
    after: Seq<ArrivalView>,
    error: Seq<char>,
)
    requires
        forall|i: int| 0 <= i < before.len() ==> is_undecided(#[trigger] before[i]),
    ensures
        connectivity(before.push((host, path, ProbeView::Online)) + after) == (
            Some(true),
            host + path,
        ),
        connectivity(before.push((host, path, ProbeView::Captive(url))) + after) == (
            Some(false),
            url,
        ),
        connectivity(before).0 is None,
        connectivity(before.push((host, path, ProbeView::Unreachable(error)))) == (
            None::<bool>,
            error,
        ),
        connectivity(before.push((host, path, ProbeView::Inconclusive))) == connectivity(before),
{
    let n = before.len() as int;
    let open = before.push((host, path, ProbeView::Online)) + after;
    let shut = before.push((host, path, ProbeView::Captive(url))) + after;
    let lost = before.push((host, path, ProbeView::Unreachable(error)));
    let dull = before.push((host, path, ProbeView::Inconclusive));
    lemma_decided_at(open, n);
    lemma_decided_at(shut, n);
    lemma_undecided(before);
    assert forall|i: int| 0 <= i < lost.len() implies is_undecided(#[trigger] lost[i]) by {
        if i < n {
            assert(lost[i] == before[i]);
        }
    }
    assert forall|i: int| 0 <= i < dull.len() implies is_undecided(#[trigger] dull[i]) by {
        if i < n {
            assert(dull[i] == before[i]);
        }
    }
    lemma_undecided(lost);
    lemma_undecided(dull);
    assert(lost.drop_last() =~= before);
    assert(dull.drop_last() =~= before);
}

/// The first finding that decides is found.
pub proof fn lemma_decided_at(s: Seq<ArrivalView>, n: int)
    requires
        0 <= n < s.len(),
        !is_undecided(s[n]),
        forall|i: int| 0 <= i < n ==> is_undecided(#[trigger] s[i]),
    ensures
        first_where(s, decides(), 0) == Some(n),
{
    lemma_first_where(s, decides(), 0);
    assert(decides()(s[n]));
    let k = first_where(s, decides(), 0)->0;
    if k < n {
        assert(decides()(s[k]));
        assert(is_undecided(s[k]));
    }
    if k > n {
        assert(!decides()(s[n]));
    }
}

/// Where nothing decides, nothing is found.
pub proof fn lemma_undecided(s: Seq<ArrivalView>)
    requires
        forall|i: int| 0 <= i < s.len() ==> is_undecided(#[trigger] s[i]),
    ensures
        first_where(s, decides(), 0) is None,
{
    lemma_first_where(s, decides(), 0);
    if let Some(k) = first_where(s, decides(), 0) {
        assert(decides()(s[k]));
    }
}

/// The search probes the targets in turn. Where one shows the portal, its page is visited;
/// where none does, that of the portal that is given; and without one the search ends.
pub proof fn law_search_goes(a: AuthView, targets: TargetsView, index: int, reply: ReplyView)
    requires
        0 <= index < targets.len(),
    ensures
        detect_first(targets).next == (DetectNextView::Send {
            stage: DetectStageView::Probing { index: 0 },
            call: probing(targets[0]),
        }),
        ({
            let next = detect_after_reply(
                a,
                targets,
                DetectStageView::Probing { index },
                reply,
            ).next;
            match probe_state(targets[index].0, reply) {
                ProbeView::Captive(url) => next == (DetectNextView::Send {
                    stage: DetectStageView::Visiting { base: Some(base_of(url)), url, hop: 0 },
                    call: fetching(a.ua, url),
                }),
                _ => if index + 1 < targets.len() {
                    next == (DetectNextView::Send {
                        stage: DetectStageView::Probing { index: index + 1 },
                        call: probing(targets[index + 1]),
                    })
                } else {
                    match a.portal_url {
                        Some(p) => next == (DetectNextView::Send {
                            stage: DetectStageView::Visiting { base: None, url: p, hop: 0 },
                            call: fetching(a.ua, p),
                        }),
                        None => next == (DetectNextView::Done { portal: None }),
                    }
                },
            }
        }),
{
}

/// A page of the portal that is given shows its base, by where it was reached; a portal that
/// cannot be reached is not found.
pub proof fn law_given_portal_is_tried(
    a: AuthView,
    targets: TargetsView,
    url: Seq<char>,
    hop: int,
    status: int,
    headers: Seq<(Seq<char>, Seq<char>)>,
    body: Seq<u8>,
    error: Seq<char>,
)
    requires
        leads_nowhere(headers),
    ensures
        ({
            let stage = DetectStageView::Visiting { base: None, url, hop };
            let next = detect_after_reply(a, targets, stage, answer(status, headers, body)).next;
            &&& status == 200 ==> next == (DetectNextView::Done { portal: Some(base_of(url)) })
            &&& status != 200 ==> next == (DetectNextView::Done { portal: None })
            &&& detect_after_reply(a, targets, stage, Err(error)).next == (DetectNextView::Done {
                portal: None,
            })
        }),
{
    lemma_no_location(headers);
}

/// A portal that a probe showed is found by its base, whatever its page comes to: the page
/// only tells whether it looks like one.
pub proof fn law_shown_portal_is_found(
    a: AuthView,
    targets: TargetsView,
    base: Seq<char>,
    url: Seq<char>,
    hop: int,
    status: int,
    headers: Seq<(Seq<char>, Seq<char>)>,
    body: Seq<u8>,
    error: Seq<char>,
)
    requires
        leads_nowhere(headers),
    ensures
        ({
            let stage = DetectStageView::Visiting { base: Some(base), url, hop };
            let page = detect_after_reply(a, targets, stage, answer(status, headers, body));
            let lost = detect_after_reply(a, targets, stage, Err(error));
            let look = if looks_like_portal(body_text(body)) {
                "正常"@
            } else {
                "内容不像门户登录页"@
            };
            &&& page.next == (DetectNextView::Done { portal: Some(base) })
            &&& lost.next == (DetectNextView::Done { portal: Some(base) })
            &&& status == 200 ==> page.lines == seq![
                "  登录页"@ + look + " (最终地址 "@ + url + ")"@,
            ]
            &&& lost.lines == seq!["  登录页抓取失败: "@ + error]
        }),
{
    lemma_no_location(headers);
}

/// A page that leads elsewhere is followed, twice at most; the base stays the one that the
/// probe showed.
pub proof fn law_search_follows_redirects(
    a: AuthView,
    targets: TargetsView,
    base: Option<Seq<char>>,
    url: Seq<char>,
    hop: int,
    status: int,
    before: Seq<(Seq<char>, Seq<char>)>,
    location: Seq<char>,
    after: Seq<(Seq<char>, Seq<char>)>,
    body: Seq<u8>,
)
    requires
        leads_nowhere(before),
    ensures
        ({
            let next = detect_after_reply(
                a,
                targets,
                DetectStageView::Visiting { base, url, hop },
                answer(status, before.push(("location"@, location)) + after, body),
            ).next;
            let there = redirect_url(url, location);
            &&& hop < 2 ==> next == (DetectNextView::Send {
                stage: DetectStageView::Visiting { base, url: there, hop: hop + 1 },
                call: fetching(a.ua, there),
            })
            &&& hop >= 2 ==> next == (DetectNextView::Done { portal: base })
        }),
{
    lemma_location(before, location, after);
}

/// An address that names its scheme in other letters is requested with the scheme in small
/// ones; an address of another scheme is requested with `http`.
pub proof fn law_scheme_is_written_small(scheme: Seq<char>, rest: Seq<char>)
    requires
        scheme.len() > 0,
        forall|i: int|
            0 <= i < scheme.len() ==> ('a' <= #[trigger] scheme[i] && scheme[i] <= 'z') || ('A'
                <= scheme[i] && scheme[i] <= 'Z'),
    ensures
        has_scheme(scheme + "://"@ + rest),
        lower(scheme) == "https"@ ==> requestable(scheme + "://"@ + rest) == "https://"@ + rest,
        lower(scheme) != "https"@ ==> requestable(scheme + "://"@ + rest) == "http://"@ + rest,
{
    reveal_strlit("://");
    reveal_strlit("http://");
    reveal_strlit("https://");
    reveal_strlit("http");
    reveal_strlit("https");
    let url = scheme + "://"@ + rest;
    let n = scheme.len() as int;
    lemma_first_stop(url, 0, off_scheme());
    let k = first_stop(url, 0, off_scheme());
    if k < n {
        assert(url[k] == scheme[k]);
        assert(off_scheme()(url[k]));
    }
    assert(url[n] == ':');
    if k > n {
        assert(!off_scheme()(url[n]));
    }
    assert(url[0] == scheme[0]);
    assert(url.subrange(n, n + 3) =~= "://"@);
    assert(url.take(n) =~= scheme);
    assert(url.skip(n) =~= "://"@ + rest);
    assert("http"@ + ("://"@ + rest) =~= "http://"@ + rest);
    assert("https"@ + ("://"@ + rest) =~= "https://"@ + rest);
}

} // verus!
