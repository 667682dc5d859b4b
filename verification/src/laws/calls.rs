//! What the operations give back, call by call.
use vstd::prelude::*;
use vstd::utf8::{decode_utf8, encode_utf8, valid_utf8};
use crate::auth::{
    agent_of_phone, captive_target, looks_like_portal_page, mobile_ua, phone_index, seed_of,
    url_base, url_host, Auth, ProbeView, MOBILE_DEVICES,
};
use crate::cli::{
    check_report, detect_report, early_exit, login_report, no_options, parse_args, parsed_from,
    EarlyEnd, Options, OptionsView, Parsed, ParsedView,
};
use crate::clock::LocalTime;
use crate::common::{body_text, decode_body, fits_decoder, gbk_decoded, marked_utf16, prefer_utf8};
use crate::detect::{arrivals_view, Arrival};
use crate::gui::current_ua_kind;
use crate::http::{
    header_lines, header_named, reply_view, sent_headers, HttpClient, HttpResponse, Outgoing, Reply,
};
use crate::ipv4::{ip_text, law_notation_is_unique, Ipv4};
use crate::laws::auth::{
    follows_host, has_no_www, is_plain_host, is_port, is_portal_word, is_undecided,
    law_address_has_host_and_base, law_other_host_is_the_portal, law_portal_is_known_by_its_words,
    law_same_host_is_ordinary, lemma_decided_at, web_scheme,
};
use crate::laws::cli::{law_address_has_four_numbers, law_value_is_taken_as_written};
use crate::laws::http::{is_host, law_url_says_where_to_connect};
use crate::laws::login::{answer, is_conflict_word, law_conflict_word_ends_the_login};
use crate::laws::net::{
    law_campus_address_is_on_campus, law_first_campus_adapter_is_chosen,
    law_other_address_is_off_campus,
};
use crate::laws::page::{input_written, is_last_named, law_page_submits_its_input, none_named};
use crate::laws::store::law_message_is_appended;
use crate::laws::text::{
    all_white, is_free_of, is_tight, lacks, law_contained_or_free, law_trimming_drops_white_space,
};
use crate::login::{LoginCode, LoginNext, LoginStage, LoginStep};
use crate::net::{adapters_view, guess_campus_adapter, Adapter};
use crate::offline::{signs_in_with, Errand, ErrandStep};
use crate::page::{can_be_written, err_message, holds_password_input, parse_form_fields};
use crate::store::{is_to_be_sealed, log_line_of, stays, FileFields, Store, StoreData};
use crate::text::{dec, first_where, lemma_first_where, lower, occurs_at, pairs, starts_with, texts};

verus! {

// ---------------------------------------------------------------------------
// Addresses
// ---------------------------------------------------------------------------

/// The host and the base of an address are those that it was made of.
pub proof fn law_host_and_base_of_an_address(
    url: &str,
    host_found: &str,
    base_found: String,
    secure: bool,
    host: Seq<char>,
    port: Seq<char>,
    rest: Seq<char>,
)
    requires
        is_plain_host(host),
        is_port(port),
        follows_host(rest),
        url@ == web_scheme(secure) + host + port + rest,
        call_ensures(url_host, (url,), host_found),
        call_ensures(url_base, (url,), base_found),
    ensures
        host_found@ == host,
        base_found@ == web_scheme(secure) + host + port,
{
    law_address_has_host_and_base(secure, host, port, rest);
}

/// A redirect to an address is the portal's exactly where the host is another one, and then
/// leads to the address letter for letter.
pub proof fn law_redirect_is_judged_by_the_host(
    requested: &str,
    location: &str,
    r: Option<String>,
    secure: bool,
    host: Seq<char>,
    port: Seq<char>,
    rest: Seq<char>,
    before: Seq<char>,
    after: Seq<char>,
)
    requires
        host.len() > 0,
        is_plain_host(host),
        is_port(port),
        follows_host(rest),
        has_no_www(requested@),
        has_no_www(host),
        all_white(before),
        all_white(after),
        is_tight(web_scheme(secure) + host + port + rest),
        is_tight(web_scheme(secure) + ("www."@ + host) + port + rest),
        location@ == before + (web_scheme(secure) + host + port + rest) + after,
        call_ensures(captive_target, (requested, location), r),
    ensures
        lower(host) == lower(requested@) ==> r is None,
        lower(host) != lower(requested@) ==> (r matches Some(url) && url@ == web_scheme(secure)
            + host + port + rest),
{
    reveal_strlit("www.");
    assert(lower("www."@) =~= "www."@);
    if lower(host) == lower(requested@) {
        law_same_host_is_ordinary(
            requested@,
            host,
            "www."@,
            secure,
            port,
            rest,
            before,
            after,
        );
    } else {
        law_other_host_is_the_portal(requested@, host, secure, port, rest, before, after);
    }
}

/// A page that holds one of the words looks like one of a portal, whatever stands around
/// the word.
pub proof fn law_word_gives_the_portal_away(
    html: &str,
    r: bool,
    before: Seq<char>,
    word: Seq<char>,
    after: Seq<char>,
)
    requires
        is_portal_word(word),
        lower(html@) == before + word + after,
        call_ensures(looks_like_portal_page, (html,), r),
    ensures
        r,
{
    law_portal_is_known_by_its_words(html@);
    assert(!is_free_of(lower(html@), word));
}

/// A page without any of the words, and without a password to fill in, does not.
pub proof fn law_plain_page_is_no_portal(html: &str, r: bool)
    requires
        !holds_password_input(html@),
        forall|word: Seq<char>| #[trigger]
            is_portal_word(word) ==> is_free_of(lower(html@), word),
        call_ensures(looks_like_portal_page, (html,), r),
    ensures
        !r,
{
    law_portal_is_known_by_its_words(html@);
}

/// An address that is written is read again, and what is read was written so.
pub proof fn law_written_address_is_read(
    ip: &Ipv4,
    text: String,
    s: &str,
    r: Option<Ipv4>,
)
    requires
        call_ensures(Ipv4::text, (ip,), text),
        call_ensures(Ipv4::parse, (s,), r),
    ensures
        s@ == text@ ==> r == Some(*ip),
        r == Some(*ip) ==> s@ == text@,
        text@ == dec(ip.a as nat) + "."@ + dec(ip.b as nat) + "."@ + dec(ip.c as nat) + "."@ + dec(
            ip.d as nat,
        ),
{
    if s@ == text@ {
        assert(s@ == ip_text(*ip));
        law_notation_is_unique(*ip, r->0);
    }
    law_address_has_four_numbers(*ip);
}

// ---------------------------------------------------------------------------
// The client
// ---------------------------------------------------------------------------

/// A client waits eight seconds and sends from the given address; a new one knows of no
/// portal. A computer and a phone say what they are, and any other kind says itself.
pub proof fn law_client_says_what_it_is(
    kind: &str,
    source: Option<Ipv4>,
    client: HttpClient,
    a: Auth,
    label: &'static str,
)
    requires
        call_ensures(HttpClient::new, (source,), client),
        call_ensures(Auth::new, (kind, source), a),
        call_ensures(Auth::device_label, (&a,), label),
    ensures
        client.source == source && client.timeout_secs == 8,
        a.client.source == source && a.client.timeout_secs == 8,
        a.portal_url is None && a.discovered_base is None,
        kind@ == "pc"@ ==> !a.is_mobile && label@ == "电脑端"@,
        kind@ == "mobile"@ ==> a.is_mobile && label@ == "手机端"@,
        kind@ != "pc"@ && kind@ != "mobile"@ ==> a.ua@ == kind@ && a.is_mobile == !is_free_of(
            kind@,
            "Mobile"@,
        ),
{
    law_contained_or_free(kind@, "Mobile"@);
}

/// A phone names itself between the system and the browser.
pub proof fn law_phone_names_itself(seed: u64, r: String)
    requires
        call_ensures(mobile_ua, (seed,), r),
    ensures
        exists|i: int|
            0 <= i < 6 && r@ == "Mozilla/5.0 (Linux; Android 13; "@ + (
            #[trigger] MOBILE_DEVICES@[i])@
                + ") AppleWebKit/537.36 (KHTML, like Gecko) Chrome/120.0.0.0 Mobile Safari/537.36"@,
{
    let k = choose|k: int|
        0 <= k < 6 && r@ == agent_of_phone(
            (#[trigger] MOBILE_DEVICES@[k])@,
        );
    assert(r@ == agent_of_phone(MOBILE_DEVICES@[k]@));
}

/// A portal that is given is tried, letter for letter, and a blank one is not given;
/// nothing else of the client changes.
pub proof fn law_given_portal_is_kept(
    a: &mut Auth,
    url: Option<String>,
    before: Seq<char>,
    portal: Seq<char>,
    after: Seq<char>,
)
    requires
        all_white(before),
        all_white(after),
        is_tight(portal),
        url matches Some(s) && s@ == before + portal + after,
        call_ensures(Auth::set_portal_url, (a, url), ()),
    ensures
        portal.len() > 0 ==> final(a)@.portal_url == Some(url->0@),
        portal.len() == 0 ==> final(a)@.portal_url is None,
        final(a)@.ua == old(a)@.ua,
        final(a)@.is_mobile == old(a)@.is_mobile,
        final(a)@.discovered_base == old(a)@.discovered_base,
        final(a).client == old(a).client,
{
    law_trimming_drops_white_space(before, portal, after);
}

/// A header is found by its name, whatever the case of the name that is asked for, and its
/// value comes back letter for letter; the first of several counts.
pub proof fn law_header_is_found(
    response: &HttpResponse,
    name: &str,
    r: Option<&str>,
    k: int,
)
    requires
        0 <= k <= response.headers@.len(),
        forall|j: int| 0 <= j < k ==> (#[trigger] response.headers@[j]).0@ != lower(name@),
        k < response.headers@.len() ==> response.headers@[k].0@ == lower(name@),
        call_ensures(HttpResponse::header, (response, name), r),
    ensures
        k < response.headers@.len() ==> (r matches Some(v) && v@ == response.headers@[k].1@),
        k == response.headers@.len() ==> r is None,
{
    let headers = pairs(response.headers@);
    let named = header_named(lower(name@));
    lemma_first_where(headers, named, 0);
    assert forall|j: int| 0 <= j < headers.len() implies named(#[trigger] headers[j]) == (
    response.headers@[j].0@ == lower(name@)) by {
        assert(headers[j].0 == response.headers@[j].0@);
    }
    match first_where(headers, named, 0) {
        Some(f) => {
            assert(named(headers[f]));
            if f < k {
                assert(response.headers@[f].0@ != lower(name@));
            }
            if k < f {
                assert(!named(headers[k]));
            }
        },
        None => {
            if k < headers.len() {
                assert(!named(headers[k]));
            }
        },
    }
}

// ---------------------------------------------------------------------------
// Adapters
// ---------------------------------------------------------------------------

/// An adapter is on the campus exactly where one of its addresses begins with 10.200 or
/// 10.202.
pub proof fn law_campus_is_known_by_two_numbers(a: &Adapter, r: bool)
    requires
        call_ensures(Adapter::is_campus, (a,), r),
    ensures
        r == exists|i: int|
            0 <= i < a.ipv4@.len() && (#[trigger] a.ipv4@[i]).a == 10 && (a.ipv4@[i].b == 200
                || a.ipv4@[i].b == 202),
{
    if exists|i: int|
        0 <= i < a.ipv4@.len() && (#[trigger] a.ipv4@[i]).a == 10 && (a.ipv4@[i].b == 200
            || a.ipv4@[i].b == 202) {
        let i = choose|i: int|
            0 <= i < a.ipv4@.len() && (#[trigger] a.ipv4@[i]).a == 10 && (a.ipv4@[i].b == 200
                || a.ipv4@[i].b == 202);
        let ip = a.ipv4@[i];
        law_campus_address_is_on_campus(a@, i, ip.b, ip.c, ip.d);
    } else {
        law_other_address_is_off_campus(a@);
    }
}

/// The first adapter with an address of the campus is the one to send from.
pub proof fn law_campus_adapter_is_guessed(
    adapters: &[Adapter],
    r: Option<&Adapter>,
    k: int,
    i: int,
)
    requires
        0 <= k < adapters@.len(),
        0 <= i < adapters@[k].ipv4@.len(),
        adapters@[k].ipv4@[i].a == 10,
        adapters@[k].ipv4@[i].b == 200 || adapters@[k].ipv4@[i].b == 202,
        forall|j: int, n: int|
            0 <= j < k && 0 <= n < adapters@[j].ipv4@.len() ==> (
            #[trigger] adapters@[j].ipv4@[n]).a != 10 || (adapters@[j].ipv4@[n].b != 200
                && adapters@[j].ipv4@[n].b != 202),
        call_ensures(guess_campus_adapter, (adapters,), r),
    ensures
        r == Some(&adapters@[k]),
{
    let views = adapters_view(adapters@);
    assert(views[k].ipv4 == adapters@[k].ipv4@);
    assert forall|j: int, n: int| 0 <= j < k && 0 <= n < views[j].ipv4.len() implies (
    #[trigger] views[j].ipv4[n]).a != 10 || (views[j].ipv4[n].b != 200 && views[j].ipv4[n].b
        != 202) by {
        assert(views[j].ipv4[n] == adapters@[j].ipv4@[n]);
    }
    law_first_campus_adapter_is_chosen(views, k, i);
}

// ---------------------------------------------------------------------------
// The self-service
// ---------------------------------------------------------------------------

/// The code that was typed is sent without the blanks around it, with the account and the
/// password letter for letter.
pub proof fn law_code_is_sent_trimmed(
    errand: &Errand,
    typed: &str,
    step: ErrandStep,
    before: Seq<char>,
    code: Seq<char>,
    after: Seq<char>,
)
    requires
        all_white(before),
        all_white(after),
        is_tight(code),
        code.len() >= 4,
        typed@ == before + code + after,
        call_ensures(Errand::on_code, (errand, typed), step),
    ensures
        signs_in_with(step@.next, errand.username@, errand.password@, code),
{
    law_trimming_drops_white_space(before, code, after);
}

// ---------------------------------------------------------------------------
// The command line
// ---------------------------------------------------------------------------

/// The status of each end: 0 where what was asked for was done, 2 where the portal was not
/// found, 3 where the account is in use, and 1 otherwise.
pub proof fn law_status_of_each_end(
    end: EarlyEnd,
    early: i32,
    open: Option<bool>,
    check: (&'static str, i32),
    found: Option<&str>,
    search: (Vec<String>, i32),
    code: LoginCode,
    detail: &str,
    login: (Vec<String>, i32),
)
    requires
        call_ensures(early_exit, (end,), early),
        call_ensures(check_report, (open,), check),
        call_ensures(detect_report, (found,), search),
        call_ensures(login_report, (code, detail), login),
    ensures
        end is Helped || end is Forgotten || end is Listed ==> early == 0,
        end is Refused || end is NoSource || end is NoCredentials || end is NoCaptcha ==> early
            == 1,
        open == Some(true) ==> check.1 == 0 && check.0@ == "结论: 已联网(已认证)"@,
        open == Some(false) ==> check.1 == 1 && check.0@ == "结论: 未认证(被门户劫持)"@,
        open is None ==> check.1 == 1 && check.0@ == "结论: 无法判定(网络不通?)"@,
        found is Some ==> search.1 == 0,
        found is None ==> search.1 == 2,
        code == LoginCode::Already || code == LoginCode::Success ==> login.1 == 0,
        code == LoginCode::NoPortal ==> login.1 == 2,
        code == LoginCode::Conflict ==> login.1 == 3,
        code == LoginCode::BadPassword || code == LoginCode::Unreachable || code
            == LoginCode::Failure ==> login.1 == 1,
{
}

/// The portal to use is the one that is given, letter for letter, and else the one that is
/// kept; one that is given is kept from then on, and one that was found only on request.
pub proof fn law_portal_is_chosen_and_kept(
    o: &Options,
    kept: &str,
    used: String,
    given: Option<&str>,
    found: Option<&str>,
    base: Option<&str>,
    before: Seq<char>,
    portal: Seq<char>,
    after: Seq<char>,
)
    requires
        all_white(before),
        all_white(after),
        is_tight(portal),
        o.portal@ == before + portal + after,
        call_ensures(Options::choose_portal, (o, kept), used),
        call_ensures(Options::portal_to_keep, (o,), given),
        call_ensures(Options::base_to_keep, (o, found), base),
    ensures
        portal.len() > 0 ==> used@ == o.portal@ && (given matches Some(s) && s@ == o.portal@),
        portal.len() == 0 ==> used@ == kept@ && given is None,
        o.save_portal ==> base == found,
        !o.save_portal ==> base is None,
{
    law_trimming_drops_white_space(before, portal, after);
}

/// Without arguments a computer is signed in.
pub proof fn law_no_arguments_sign_in(args: &[String], r: Parsed)
    requires
        args@.len() == 0,
        call_ensures(parse_args, (args,), r),
    ensures
        r matches Parsed::Run(o) && (o.ua@ == "pc"@ && !o.check && !o.list && !o.save && !o.forget
            && !o.offline && !o.list_online && !o.detect_portal && !o.save_portal
            && !o.ask_password),
{
}

/// An account and a password on the command line are taken letter for letter.
pub proof fn law_account_on_the_command_line(args: &[String], r: Parsed)
    requires
        args@.len() == 4,
        args@[0]@ == "--username"@,
        args@[2]@ == "--password"@,
        call_ensures(parse_args, (args,), r),
    ensures
        r matches Parsed::Run(o) && (o.username@ == args@[1]@ && o.password@ == args@[3]@),
{
    let given = texts(args@);
    let first = no_options();
    let second = OptionsView { username: args@[1]@, ..first };
    let third = OptionsView { password: args@[3]@, ..second };
    assert(given[0] == args@[0]@ && given[1] == args@[1]@);
    assert(given[2] == args@[2]@ && given[3] == args@[3]@);
    law_value_is_taken_as_written(given, 0, first, args@[1]@);
    law_value_is_taken_as_written(given, 2, second, args@[3]@);
    assert(parsed_from(given, 4, third) == ParsedView::Run(third));
}

// ---------------------------------------------------------------------------
// What is kept
// ---------------------------------------------------------------------------

/// What is handed out for writing is what is read again: the fields of what is kept give
/// the same data.
pub proof fn law_fields_are_read_again(data: &StoreData, fields: FileFields, store: Store)
    requires
        call_ensures(StoreData::fields, (data,), fields),
        call_ensures(Store::load, (Some(fields),), store),
    ensures
        store.data@ == data@,
        store.data.username@ == data.username@,
        store.data.password_dpapi@ == data.password_dpapi@,
        store.data.portal_url@ == data.portal_url@,
        texts(store.data.log_lines@) == texts(data.log_lines@),
        !store.dirty,
{
}

/// Where nothing was read, nothing is kept, and the device is a computer.
pub proof fn law_nothing_read_is_nothing_kept(store: Store)
    requires
        call_ensures(Store::load, (None::<FileFields>,), store),
    ensures
        store.data.username@.len() == 0,
        store.data.password_dpapi@.len() == 0,
        !store.data.save_password,
        store.data.ua@ == "pc"@,
        store.data.adapter@.len() == 0,
        store.data.portal_url@.len() == 0,
        store.data.log_lines@.len() == 0,
        !store.dirty,
{
    assert(store.data@.log_lines.len() == store.data.log_lines@.len());
}

/// A portal that is remembered is kept letter for letter, and is yet to be written; nothing
/// else changes.
pub proof fn law_portal_is_remembered(store: &mut Store, url: &str)
    requires
        call_ensures(Store::remember_portal, (store, url), ()),
    ensures
        final(store).data.portal_url@ == url@,
        final(store).data.username@ == old(store).data.username@,
        final(store).data.password_dpapi@ == old(store).data.password_dpapi@,
        final(store).data.save_password == old(store).data.save_password,
        final(store).data.ua@ == old(store).data.ua@,
        final(store).data.adapter@ == old(store).data.adapter@,
        texts(final(store).data.log_lines@) == texts(old(store).data.log_lines@),
        final(store).dirty,
{
}

/// The log is emptied on request; nothing else changes.
pub proof fn law_log_is_emptied(store: &mut Store)
    requires
        call_ensures(Store::clear_logs, (store,), ()),
    ensures
        final(store).data.log_lines@.len() == 0,
        final(store).data.username@ == old(store).data.username@,
        final(store).data.password_dpapi@ == old(store).data.password_dpapi@,
        final(store).data.portal_url@ == old(store).data.portal_url@,
        final(store).dirty,
{
    assert(final(store).data@.log_lines.len() == final(store).data.log_lines@.len());
}

/// A message is logged behind the lines that are there; nothing but the log changes.
pub proof fn law_message_is_logged(
    store: &mut Store,
    msg: &str,
    now: &LocalTime,
    deadline: &str,
)
    requires
        old(store).data.log_lines@.len() < 2000,
        forall|i: int|
            0 <= i < old(store).data.log_lines@.len() ==> stays(
                (#[trigger] old(store).data.log_lines@[i])@,
                deadline@,
            ),
        stays(log_line_of(*now, msg@), deadline@),
        call_ensures(Store::append_log_since, (store, msg, now, deadline), ()),
    ensures
        texts(final(store).data.log_lines@) == texts(old(store).data.log_lines@).push(
            log_line_of(*now, msg@),
        ),
        final(store).data.username@ == old(store).data.username@,
        final(store).data.password_dpapi@ == old(store).data.password_dpapi@,
        final(store).data.portal_url@ == old(store).data.portal_url@,
        final(store).dirty,
{
    let lines = texts(old(store).data.log_lines@);
    assert forall|i: int| 0 <= i < lines.len() implies stays(#[trigger] lines[i], deadline@) by {
        assert(lines[i] == old(store).data.log_lines@[i]@);
    }
    law_message_is_appended(lines, *now, msg@, deadline@);
}

/// What has changed is handed out for writing once.
pub proof fn law_changes_are_written_once(store: &mut Store, r: Option<&StoreData>)
    requires
        call_ensures(Store::save_if_dirty, (store,), r),
    ensures
        old(store).dirty ==> r == Some(&old(store).data),
        !old(store).dirty ==> r is None,
        final(store).data == old(store).data,
        !final(store).dirty,
{
}

/// A password is sealed only where it is to be kept, and there is one.
pub proof fn law_password_is_sealed_to_be_kept(password: &str, save: bool, r: bool, none: bool)
    requires
        call_ensures(is_to_be_sealed, (Some(password), save), r),
        call_ensures(is_to_be_sealed, (None::<&str>, save), none),
    ensures
        r <==> save && password@.len() > 0,
        !none,
{
}

/// The window names the kind of device by the mark.
pub proof fn law_mark_names_the_device(marked: bool, r: &'static str)
    requires
        call_ensures(current_ua_kind, (marked,), r),
    ensures
        marked ==> r@ == "mobile"@,
        !marked ==> r@ == "pc"@,
{
}

// ---------------------------------------------------------------------------
// Texts of the portal
// ---------------------------------------------------------------------------

/// A body is read as UTF-8 where it is UTF-8, without the mark in front, and as GBK where it
/// is neither that nor marked otherwise.
pub proof fn law_body_is_read(
    body: &[u8],
    r: String,
    utf8: String,
    malformed: bool,
    gbk: String,
    preferred: String,
)
    requires
        fits_decoder(body@.len()),
        call_ensures(decode_body, (body,), r),
        call_ensures(prefer_utf8, (utf8, malformed, gbk), preferred),
    ensures
        valid_utf8(body@) && !(body@.len() >= 3 && body@[0] == 0xef && body@[1] == 0xbb && body@[2]
            == 0xbf) ==> r@ == decode_utf8(body@),
        !valid_utf8(body@) && !marked_utf16(body@) ==> r@ == gbk_decoded(body@),
        malformed ==> preferred@ == gbk@,
        !malformed ==> preferred@ == utf8@,
{
    if starts_with(body@, seq![0xefu8, 0xbbu8, 0xbfu8]) {
        let mark = seq![0xefu8, 0xbbu8, 0xbfu8];
        assert(body@.subrange(0, 3)[0] == mark[0]);
        assert(body@.subrange(0, 3)[1] == mark[1]);
        assert(body@.subrange(0, 3)[2] == mark[2]);
    }
}

/// The seed of a phone mixes the seconds and the nanoseconds: each comes back from the seed
/// and the other one.
pub proof fn law_seed_mixes_the_time(secs: u64, nanos: u32)
    ensures
        seed_of(Some((secs, nanos))) ^ secs == nanos as u64,
        seed_of(Some((secs, nanos))) ^ (nanos as u64) == secs,
        seed_of(None) == 12345,
{
    let n = nanos as u64;
    assert((n ^ secs) ^ secs == n) by (bit_vector);
    assert((n ^ secs) ^ n == secs) by (bit_vector);
}

/// A seed selects the phone at the remainder by six of its step, which is taken modulo two
/// to the power of 64.
pub proof fn law_seed_selects_a_phone(seed: u64, r: String, rounds: int, sixes: int, i: int)
    requires
        call_ensures(mobile_ua, (seed,), r),
        0 <= i < 6,
        0 <= 6 * sixes + i < 0x1_0000_0000_0000_0000,
        seed * 6364136223846793005 + 1442695040888963407 == rounds * 0x1_0000_0000_0000_0000 + 6
            * sixes + i,
    ensures
        r@ == "Mozilla/5.0 (Linux; Android 13; "@ + MOBILE_DEVICES@[i]@
            + ") AppleWebKit/537.36 (KHTML, like Gecko) Chrome/120.0.0.0 Mobile Safari/537.36"@,
{
    let step = seed * 6364136223846793005 + 1442695040888963407;
    assert(step % 0x1_0000_0000_0000_0000 == 6 * sixes + i);
    assert((6 * sixes + i) % 6 == i);
    assert(phone_index(seed) == i);
}

/// A message that holds one of the words of a conflict ends the login with a conflict, and
/// is handed on whole.
pub proof fn law_conflict_is_told(
    a: &mut Auth,
    targets: &[(String, String)],
    username: &str,
    password: &str,
    reply: &Reply,
    step: LoginStep,
    status: int,
    headers: Seq<(Seq<char>, Seq<char>)>,
    body: Seq<u8>,
    before: Seq<char>,
    word: Seq<char>,
    after: Seq<char>,
)
    requires
        reply_view(*reply) == answer(status, headers, body),
        is_conflict_word(word),
        err_message(body_text(body)) == before + word + after,
        is_free_of(before + word + after, "密码错误"@),
        call_ensures(
            Auth::login,
            (a, targets, username, password, LoginStage::Submitting, reply),
            step,
        ),
    ensures
        step.next matches LoginNext::Done { ok, code, detail } && (!ok && code
            == LoginCode::Conflict && detail@ == before + word + after),
{
    law_conflict_word_ends_the_login(
        old(a)@,
        pairs(targets@),
        username@,
        password@,
        status,
        headers,
        body,
        before,
        word,
        after,
    );
}

/// The page of one input submits its value under its name, letter for letter.
pub proof fn law_value_is_submitted_as_written(
    html: &str,
    r: Vec<(String, String)>,
    before: Seq<char>,
    list: Seq<(Seq<char>, Seq<char>)>,
    slash: bool,
    after: Seq<char>,
    n: int,
    v: int,
)
    requires
        can_be_written(list),
        none_named(list, "disabled"@),
        is_last_named(list, n, "name"@),
        is_last_named(list, v, "value"@),
        lacks(list[v].1, '&'),
        lacks(input_written(list, slash), '>'),
        html@ == before + input_written(list, slash) + ">"@ + after,
        forall|i: int|
            0 <= i < before.len() ==> !#[trigger] occurs_at(lower(html@), "<input"@, i),
        forall|i: int| !#[trigger] occurs_at(lower(after), "<input"@, i),
        call_ensures(parse_form_fields, (html,), r),
    ensures
        r@.len() == 1,
        r@[0].0@ == list[n].1,
        r@[0].1@ == list[v].1,
{
    law_page_submits_its_input(before, list, slash, after, n, v);
    let found = pairs(r@);
    assert(found.len() == r@.len());
    assert(found[0] == (r@[0].0@, r@[0].1@));
}

/// A request goes to the host and the port of its URL, with the method and the path in front
/// and the body behind its length.
pub proof fn law_request_goes_out(
    client: &HttpClient,
    method: &str,
    url: &str,
    headers: &[(String, String)],
    body: &str,
    r: Result<Outgoing, String>,
    host: Seq<char>,
    port: nat,
    path: Seq<char>,
)
    requires
        is_host(host),
        port <= 65535,
        port != 80,
        path.len() > 0,
        path[0] == '/',
        url@ == "http://"@ + host + ":"@ + dec(port) + path,
        call_ensures(HttpClient::request, (client, method, url, headers, Some(body)), r),
    ensures
        r matches Ok(out) && (out.host@ == host && out.port == port && out.payload@ == method@
            + " "@ + path + " HTTP/1.1\r\nHost: "@ + host + ":"@ + dec(port)
            + "\r\nConnection: close\r\n"@ + header_lines(sent_headers(pairs(headers@)))
            + "Content-Length: "@ + dec(encode_utf8(body@).len()) + "\r\n"@ + "\r\n"@ + body@),
{
    law_url_says_where_to_connect(host, port, path);
    let lines = header_lines(sent_headers(pairs(headers@)));
    let tail = "Content-Length: "@ + dec(encode_utf8(body@).len()) + "\r\n"@ + "\r\n"@ + body@;
    assert(r->Ok_0.payload@ =~= method@ + " "@ + path + " HTTP/1.1\r\nHost: "@ + host + ":"@ + dec(
        port,
    ) + "\r\nConnection: close\r\n"@ + lines + "Content-Length: "@ + dec(
        encode_utf8(body@).len(),
    ) + "\r\n"@ + "\r\n"@ + body@);
}

/// The first finding that decides is the verdict of the test, with where it leads.
pub proof fn law_test_tells_the_first_finding(
    a: &Auth,
    arrivals: &[Arrival],
    r: (Option<bool>, String, Vec<String>),
    k: int,
)
    requires
        0 <= k < arrivals@.len(),
        forall|i: int|
            0 <= i < k ==> (#[trigger] arrivals@[i]).2@ is Unreachable || arrivals@[i].2@
                is Inconclusive,
        call_ensures(Auth::connectivity_test, (a, arrivals), r),
    ensures
        arrivals@[k].2@ is Online ==> r.0 == Some(true) && r.1@ == arrivals@[k].0@
            + arrivals@[k].1@,
        arrivals@[k].2@ matches ProbeView::Captive(url) ==> r.0 == Some(false) && r.1@ == url,
{
    let views = arrivals_view(arrivals@);
    if arrivals@[k].2@ is Online || arrivals@[k].2@ is Captive {
        assert(views[k] == (arrivals@[k].0@, arrivals@[k].1@, arrivals@[k].2@));
        assert forall|i: int| 0 <= i < k implies is_undecided(#[trigger] views[i]) by {
            assert(views[i] == (arrivals@[i].0@, arrivals@[i].1@, arrivals@[i].2@));
        }
        lemma_decided_at(views, k);
    }
}

} // verus!
