//! What goes to the self-service, and what its answers lead to.
use vstd::prelude::*;
use crate::auth::{cookie_of, cookie_part};
use crate::common::body_text;
use crate::crypto::base64_bytes;
use crate::http::{CallView, ReplyView, ResponseView};
use crate::json::{json_count_at, json_error_of, json_object_of, json_string_at};
use crate::laws::http::{law_first_header_counts, lemma_stops_at};
use crate::laws::text::{all_white, is_tight, is_white, lacks, law_trimming_drops_white_space};
use crate::offline::{
    after_code, after_verdict, device_words, errand_after_reply, errand_cookie, errand_first, none,
    send_login, with_devices, with_strangers, ErrandNextView, ErrandStageView, ErrandView, LineView,
};
use crate::selfsvc::{
    cookie_after, has_ip, has_mac, hex_digits, kick_by_mac_fields, kick_fields, list_fields,
    login_fields, own_row, rows_in, service_call, service_headers, RowView,
};
use crate::text::{
    at_char, dec, first_stop, first_where, lemma_first_stop, lemma_first_where, lower, trim,
};

verus! {

// ---------------------------------------------------------------------------
// Requests
// ---------------------------------------------------------------------------

/// The headers of a request to the self-service.
pub open spec fn in_session(cookie: Seq<char>) -> Seq<(Seq<char>, Seq<char>)> {
    let rest = seq![
        (
            "User-Agent"@,
            "Mozilla/5.0 (Windows NT 10.0; Win64; x64) AppleWebKit/537.36 (KHTML, like Gecko) Chrome/120.0.0.0 Safari/537.36"@,
        ),
        ("Accept"@, "application/json, text/plain, */*"@),
        ("Content-Type"@, "application/json"@),
        ("X-Requested-With"@, "XMLHttpRequest"@),
    ];
    if cookie.len() > 0 {
        seq![("Cookie"@, cookie)] + rest
    } else {
        rest
    }
}

/// A request to the self-service: an object of strings, posted in a session.
pub open spec fn asking(
    cookie: Seq<char>,
    path: Seq<char>,
    fields: Seq<(Seq<char>, Seq<char>)>,
) -> CallView {
    CallView {
        method: "POST"@,
        url: "http://10.255.2.252/self/"@ + path,
        headers: in_session(cookie),
        body: Some(json_object_of(fields)),
    }
}

/// A request goes where it ought to, in the session that there is.
pub proof fn lemma_asking(cookie: Seq<char>, path: Seq<char>, fields: Seq<(Seq<char>, Seq<char>)>)
    ensures
        service_call(cookie, "self/"@ + path, fields) == asking(cookie, path, fields),
{
    reveal_strlit("http://");
    reveal_strlit("10.255.2.252");
    reveal_strlit("/");
    reveal_strlit("self/");
    reveal_strlit("http://10.255.2.252/self/");
    assert("http://"@ + "10.255.2.252"@ + "/"@ + "self/"@ =~= "http://10.255.2.252/self/"@);
    assert("http://"@ + "10.255.2.252"@ + "/"@ + ("self/"@ + path) =~= "http://10.255.2.252/self/"@
        + path);
    assert(service_headers(cookie) =~= in_session(cookie));
}

/// The paths of the self-service.
pub proof fn lemma_paths()
    ensures
        "self/"@ + "tologin.do"@ == "self/tologin.do"@,
        "self/"@ + "login.do"@ == "self/login.do"@,
        "self/"@ + "getonline.do"@ == "self/getonline.do"@,
        "self/"@ + "kickonlineByMac.do"@ == "self/kickonlineByMac.do"@,
        "self/"@ + "logout.do"@ == "self/logout.do"@,
{
    reveal_strlit("self/");
    reveal_strlit("tologin.do");
    reveal_strlit("self/tologin.do");
    reveal_strlit("login.do");
    reveal_strlit("self/login.do");
    reveal_strlit("getonline.do");
    reveal_strlit("self/getonline.do");
    reveal_strlit("kickonlineByMac.do");
    reveal_strlit("self/kickonlineByMac.do");
    reveal_strlit("logout.do");
    reveal_strlit("self/logout.do");
}

/// The login with an account, a password and a code.
pub open spec fn signing_in(e: ErrandView, code: Seq<char>) -> ErrandNextView {
    ErrandNextView::Send {
        stage: ErrandStageView::Login,
        call: asking(
            e.cookie,
            "login.do"@,
            seq![("accountId"@, e.username), ("password"@, e.password), ("verifyCode"@, code)],
        ),
    }
}

/// The login that is sent is the one with the account, the password and the code.
proof fn lemma_signing_in(e: ErrandView, code: Seq<char>)
    ensures
        send_login(e, code).next == signing_in(e, code),
{
    lemma_paths();
    let fields = seq![("accountId"@, e.username), ("password"@, e.password), ("verifyCode"@, code)];
    assert(login_fields(e.username, e.password, code) =~= fields);
    lemma_asking(e.cookie, "login.do"@, fields);
}

/// The code that is typed is sent without the white space around it, the end of the line
/// included; one of fewer than four characters is not sent.
pub proof fn law_typed_code_is_sent(
    e: ErrandView,
    before: Seq<char>,
    code: Seq<char>,
    after: Seq<char>,
)
    requires
        all_white(before),
        all_white(after),
        is_tight(code),
    ensures
        code.len() >= 4 ==> after_code(e, before + code + after).next == signing_in(e, code),
        code.len() < 4 ==> after_code(e, before + code + after).next == (ErrandNextView::Done {
            exit: 1,
        }),
{
    law_trimming_drops_white_space(before, code, after);
    lemma_signing_in(e, code);
}

/// An errand with a session and a code signs in with them; with neither it asks for a
/// captcha; with one alone it ends.
pub proof fn law_errand_begins(e: ErrandView, session: Seq<char>, code: Seq<char>)
    ensures
        errand_first(e, Some(session), Some(code)).next == signing_in(
            ErrandView { cookie: session, ..e },
            code,
        ),
        errand_first(e, None, None).next == (ErrandNextView::Send {
            stage: ErrandStageView::Captcha,
            call: asking(e.cookie, "tologin.do"@, Seq::empty()),
        }),
        errand_first(e, Some(session), None).next == (ErrandNextView::Done { exit: 1 }),
        errand_first(e, None, Some(code)).next == (ErrandNextView::Done { exit: 1 }),
{
    lemma_signing_in(ErrandView { cookie: session, ..e }, code);
    lemma_paths();
    lemma_asking(e.cookie, "tologin.do"@, Seq::empty());
}

// ---------------------------------------------------------------------------
// Answers
// ---------------------------------------------------------------------------

/// An answer of the self-service.
pub open spec fn answered(headers: Seq<(Seq<char>, Seq<char>)>, body: Seq<u8>) -> ReplyView {
    Ok(ResponseView { status: 200, headers, body })
}

/// An answer grants what was asked for: it is JSON, and says `0` in its `errcode`.
pub open spec fn grants(body: Seq<u8>) -> bool {
    json_error_of(body_text(body)) is None && json_string_at(body_text(body), "/errcode"@) == Some(
        "0"@,
    )
}

/// Once the login is granted, the devices of the account are asked for, in the session that
/// the answer sets.
pub proof fn law_granted_login_lists_the_devices(
    e: ErrandView,
    headers: Seq<(Seq<char>, Seq<char>)>,
    body: Seq<u8>,
)
    requires
        grants(body),
    ensures
        errand_after_reply(e, ErrandStageView::Login, answered(headers, body)).next == (
        ErrandNextView::Send {
            stage: ErrandStageView::Listing,
            call: asking(
                cookie_after(e.cookie, answered(headers, body)),
                "getonline.do"@,
                seq![("accountId"@, e.username)],
            ),
        }),
{
    lemma_paths();
    let cookie = cookie_after(e.cookie, answered(headers, body));
    assert(list_fields(e.username) =~= seq![("accountId"@, e.username)]);
    lemma_asking(cookie, "getonline.do"@, seq![("accountId"@, e.username)]);
}

/// What is not granted ends the errand with status 1: a request that fails, a status other
/// than 200, an answer that is no JSON, and an `errcode` other than `0`, of which the words
/// of the self-service are shown.
pub proof fn law_refused_errand_ends(
    e: ErrandView,
    stage: ErrandStageView,
    error: Seq<char>,
    status: int,
    headers: Seq<(Seq<char>, Seq<char>)>,
    body: Seq<u8>,
)
    requires
        stage is Captcha || stage is Login || stage is Listing,
    ensures
        errand_after_reply(e, stage, Err(error)).next == (ErrandNextView::Done { exit: 1 }),
        status != 200 ==> errand_after_reply(
            e,
            stage,
            Ok(ResponseView { status, headers, body }),
        ).next == (ErrandNextView::Done { exit: 1 }),
        !grants(body) ==> errand_after_reply(e, stage, answered(headers, body)).next == (
        ErrandNextView::Done { exit: 1 }),
        !grants(body) && json_error_of(body_text(body)) is None ==> errand_after_reply(
            e,
            stage,
            answered(headers, body),
        ).lines == seq![
            LineView::Error(
                "!! "@ + (match json_string_at(body_text(body), "/errmsg"@) {
                    Some(m) => m,
                    None => "未知错误"@,
                }),
            ),
        ],
{
}

/// A captcha that is granted is shown: the image is what the answer holds in base64.
pub proof fn law_captcha_is_shown(
    e: ErrandView,
    headers: Seq<(Seq<char>, Seq<char>)>,
    body: Seq<u8>,
    image: Seq<char>,
)
    requires
        grants(body),
        json_string_at(body_text(body), "/data/verifyCode"@) == Some(image),
        base64_bytes(image) is Ok,
    ensures
        errand_after_reply(e, ErrandStageView::Captcha, answered(headers, body)).next matches ErrandNextView::AskCode {
            png,
            ..
        } && png == base64_bytes(image)->Ok_0,
        errand_cookie(e, ErrandStageView::Captcha, answered(headers, body)) == cookie_after(
            e.cookie,
            answered(headers, body),
        ),
{
}

/// The session is the one that an answer sets, up to the first semicolon; an answer that
/// sets none keeps it.
pub proof fn law_session_is_kept(
    cookie: Seq<char>,
    before: Seq<(Seq<char>, Seq<char>)>,
    set: Seq<char>,
    attributes: Seq<char>,
    after: Seq<(Seq<char>, Seq<char>)>,
    body: Seq<u8>,
)
    requires
        set.len() > 0,
        is_tight(set),
        lacks(set, ';'),
        forall|i: int| 0 <= i < before.len() ==> (#[trigger] before[i]).0 != "set-cookie"@,
    ensures
        cookie_after(
            cookie,
            answered(before.push(("set-cookie"@, set + ";"@ + attributes)) + after, body),
        ) == set,
        cookie_after(cookie, answered(before.push(("set-cookie"@, set)) + after, body)) == set,
        cookie_after(cookie, answered(before, body)) == cookie,
        cookie_of(before.push(("set-cookie"@, set + ";"@ + attributes)) + after) == set,
        cookie_of(before.push(("set-cookie"@, set)) + after) == set,
        cookie_of(before) == Seq::<char>::empty(),
{
    reveal_strlit("Set-Cookie");
    reveal_strlit("set-cookie");
    reveal_strlit(";");
    assert(lower("Set-Cookie"@) =~= "set-cookie"@);
    let long = set + ";"@ + attributes;
    let none = Seq::<char>::empty();
    let n = set.len() as int;
    law_first_header_counts(before, "set-cookie"@, long, after, "Set-Cookie"@);
    law_first_header_counts(before, "set-cookie"@, set, after, "Set-Cookie"@);
    lemma_stops_at(long, ';', n);
    assert(long.take(n) == set);
    lemma_first_stop(set, 0, at_char(';'));
    if first_stop(set, 0, at_char(';')) < n {
        assert(set[first_stop(set, 0, at_char(';'))] != ';');
    }
    assert(set.take(n) == set);
    assert(none + set + none == set);
    law_trimming_drops_white_space(none, set, none);
}

// ---------------------------------------------------------------------------
// Devices
// ---------------------------------------------------------------------------

/// The text at a place in the list of devices.
pub open spec fn listed(text: Seq<char>, i: int, key: Seq<char>) -> Seq<char> {
    match json_string_at(text, "/rows/"@ + dec(i as nat) + "/"@ + key) {
        Some(s) => s,
        None => Seq::empty(),
    }
}

/// Each device of the list is read, each of its fields from its own place.
pub proof fn law_devices_are_read(text: Seq<char>, n: nat, i: int)
    requires
        json_count_at(text, "/rows"@) == Some(n),
        0 <= i < n,
    ensures
        rows_in(text).len() == n,
        rows_in(text)[i].account_id == listed(text, i, "accountId"@),
        rows_in(text)[i].account_mac == listed(text, i, "accountMac"@),
        rows_in(text)[i].billing_id == listed(text, i, "billingId"@),
        rows_in(text)[i].account_ip == listed(text, i, "accountIp"@),
        rows_in(text)[i].server_ip == listed(text, i, "serverIp"@),
        rows_in(text)[i].terminal_type == listed(text, i, "terminalType"@),
        rows_in(text)[i].os_info == listed(text, i, "osInfo"@),
        rows_in(text)[i].online_time == listed(text, i, "onlineTime"@),
{
}

/// A hexadecimal digit, and what it is in capitals.
pub open spec fn capital_of(c: char) -> Option<char> {
    if ('0' <= c && c <= '9') || ('A' <= c && c <= 'F') {
        Some(c)
    } else if c == 'a' {
        Some('A')
    } else if c == 'b' {
        Some('B')
    } else if c == 'c' {
        Some('C')
    } else if c == 'd' {
        Some('D')
    } else if c == 'e' {
        Some('E')
    } else if c == 'f' {
        Some('F')
    } else {
        None
    }
}

/// Of a hardware address the digits are kept, in capitals and in order, and nothing else.
pub proof fn law_digits_of_an_address(s: Seq<char>, c: char)
    ensures
        capital_of(c) matches Some(d) ==> hex_digits(s.push(c)) == hex_digits(s).push(d),
        capital_of(c) is None ==> hex_digits(s.push(c)) == hex_digits(s),
        hex_digits(Seq::empty()) == Seq::<char>::empty(),
{
    assert(s.push(c).drop_last() == s);
}

/// This device is the first with its hardware address, wherever its address stands in the
/// list; without such a row, the first with its address; otherwise it is not in the list.
pub proof fn law_own_device_is_found(rows: Seq<RowView>, mac: Seq<char>, ip: Seq<char>, k: int)
    requires
        0 <= k < rows.len(),
    ensures
        mac.len() > 0 && hex_digits(rows[k].account_mac) == mac && (forall|j: int|
            0 <= j < k ==> hex_digits((#[trigger] rows[j]).account_mac) != mac) ==> own_row(
            rows,
            mac,
            ip,
        ) == Some(k),
        (mac.len() == 0 || forall|j: int|
            0 <= j < rows.len() ==> hex_digits((#[trigger] rows[j]).account_mac) != mac) && ip.len()
            > 0 && lower(rows[k].account_ip) == lower(ip) && (forall|j: int|
            0 <= j < k ==> lower((#[trigger] rows[j]).account_ip) != lower(ip)) ==> own_row(
            rows,
            mac,
            ip,
        ) == Some(k),
{
    lemma_first_where(rows, has_mac(mac), 0);
    lemma_first_where(rows, has_ip(ip), 0);
    if hex_digits(rows[k].account_mac) == mac {
        assert(has_mac(mac)(rows[k]));
    }
    if lower(rows[k].account_ip) == lower(ip) {
        assert(has_ip(ip)(rows[k]));
    }
    if let Some(i) = first_where(rows, has_mac(mac), 0) {
        assert(has_mac(mac)(rows[i]));
        if i > k {
            assert(!has_mac(mac)(rows[k]));
        }
    }
    if let Some(i) = first_where(rows, has_ip(ip), 0) {
        assert(has_ip(ip)(rows[i]));
        if i > k {
            assert(!has_ip(ip)(rows[k]));
        }
    }
}

/// A device that is in no row is not found.
pub proof fn law_stranger_is_not_found(rows: Seq<RowView>, mac: Seq<char>, ip: Seq<char>)
    requires
        mac.len() == 0 || forall|j: int|
            0 <= j < rows.len() ==> hex_digits((#[trigger] rows[j]).account_mac) != mac,
        ip.len() == 0 || forall|j: int|
            0 <= j < rows.len() ==> lower((#[trigger] rows[j]).account_ip) != lower(ip),
    ensures
        own_row(rows, mac, ip) is None,
{
    lemma_first_where(rows, has_mac(mac), 0);
    lemma_first_where(rows, has_ip(ip), 0);
    if let Some(i) = first_where(rows, has_mac(mac), 0) {
        assert(has_mac(mac)(rows[i]));
    }
    if let Some(i) = first_where(rows, has_ip(ip), 0) {
        assert(has_ip(ip)(rows[i]));
    }
}

/// What comes of the list: to list is to list; to go offline is to name the hardware address
/// that the list has for this device. Without this device in the list, nothing is asked for,
/// and the status is 3; with no device at all it is 0.
pub proof fn law_list_leads_to(
    e: ErrandView,
    headers: Seq<(Seq<char>, Seq<char>)>,
    body: Seq<u8>,
)
    requires
        grants(body),
    ensures
        ({
            let rows = rows_in(body_text(body));
            let next = errand_after_reply(
                e,
                ErrandStageView::Listing,
                answered(headers, body),
            ).next;
            &&& !e.take_offline ==> next == (ErrandNextView::Done { exit: 0 })
            &&& e.take_offline && rows.len() == 0 ==> next == (ErrandNextView::Done { exit: 0 })
            &&& e.take_offline && rows.len() > 0 ==> (match own_row(rows, e.mac, e.ip) {
                None => next == (ErrandNextView::Done { exit: 3 }),
                Some(i) => next == (ErrandNextView::Send {
                    stage: ErrandStageView::Kicking { ip: rows[i].account_ip },
                    call: asking(
                        e.cookie,
                        "kickonlineByMac.do"@,
                        seq![("accountId"@, e.username), ("accountMac"@, rows[i].account_mac)],
                    ),
                }),
            })
        }),
{
    lemma_paths();
    let rows = rows_in(body_text(body));
    if let Some(i) = own_row(rows, e.mac, e.ip) {
        let fields = seq![("accountId"@, e.username), ("accountMac"@, rows[i].account_mac)];
        assert(kick_by_mac_fields(e.username, rows[i]) =~= fields);
        lemma_asking(e.cookie, "kickonlineByMac.do"@, fields);
    }
}

/// A session is taken offline by the account, the address, the session and the server that
/// the list has for it.
pub proof fn law_session_is_named(cookie: Seq<char>, account: Seq<char>, row: RowView)
    ensures
        service_call(cookie, "self/kickonline.do"@, kick_fields(account, row)) == asking(
            cookie,
            "kickonline.do"@,
            seq![
                ("accountId"@, account),
                ("accountIp"@, row.account_ip),
                ("billingId"@, row.billing_id),
                ("serverIp"@, row.server_ip),
            ],
        ),
{
    reveal_strlit("self/");
    reveal_strlit("kickonline.do");
    reveal_strlit("self/kickonline.do");
    assert("self/"@ + "kickonline.do"@ =~= "self/kickonline.do"@);
    let fields = seq![
        ("accountId"@, account),
        ("accountIp"@, row.account_ip),
        ("billingId"@, row.billing_id),
        ("serverIp"@, row.server_ip),
    ];
    assert(kick_fields(account, row) =~= fields);
    lemma_asking(cookie, "kickonline.do"@, fields);
}

/// Once this device is offline, the session is ended, and three seconds later the network is
/// tested; a refusal ends the errand with status 1.
pub proof fn law_errand_closes(
    e: ErrandView,
    ip: Seq<char>,
    headers: Seq<(Seq<char>, Seq<char>)>,
    body: Seq<u8>,
    reply: ReplyView,
    error: Seq<char>,
)
    ensures
        grants(body) ==> errand_after_reply(
            e,
            ErrandStageView::Kicking { ip },
            answered(headers, body),
        ).next == (ErrandNextView::Send {
            stage: ErrandStageView::Leaving,
            call: asking(e.cookie, "logout.do"@, Seq::empty()),
        }),
        !grants(body) ==> errand_after_reply(
            e,
            ErrandStageView::Kicking { ip },
            answered(headers, body),
        ).next == (ErrandNextView::Done { exit: 1 }),
        errand_after_reply(e, ErrandStageView::Kicking { ip }, Err(error)).next == (
        ErrandNextView::Done { exit: 1 }),
        errand_after_reply(e, ErrandStageView::Leaving, reply).next == (ErrandNextView::Test {
            wait_secs: 3,
        }),
        after_verdict(Some(false)).next == (ErrandNextView::Done { exit: 0 }),
        after_verdict(Some(true)).next == (ErrandNextView::Done { exit: 1 }),
        after_verdict(None).next == (ErrandNextView::Done { exit: 0 }),
{
    lemma_paths();
    lemma_asking(e.cookie, "logout.do"@, Seq::empty());
}

/// A device is listed with its address, its slot, its system, its hardware address and its
/// time.
pub proof fn law_device_is_shown(r: RowView)
    ensures
        r.terminal_type == "b"@ ==> device_words(r) == "  IP="@ + r.account_ip + "  槽位="@ + "手机"@
            + "("@ + r.os_info + ")  MAC="@ + r.account_mac + "  上线时间="@ + r.online_time,
        r.terminal_type != "b"@ ==> device_words(r) == "  IP="@ + r.account_ip + "  槽位="@ + "PC"@
            + "("@ + r.os_info + ")  MAC="@ + r.account_mac + "  上线时间="@ + r.online_time,
{
}

/// An answer with another status is told with the path, the status and the first eighty
/// characters of its text.
pub proof fn law_other_status_is_told(
    e: ErrandView,
    status: int,
    headers: Seq<(Seq<char>, Seq<char>)>,
    body: Seq<u8>,
)
    requires
        status != 200,
    ensures
        ({
            let text = body_text(body);
            let told = if text.len() <= 80 {
                text
            } else {
                text.take(80)
            };
            errand_after_reply(
                e,
                ErrandStageView::Listing,
                Ok(ResponseView { status, headers, body }),
            ).lines == seq![
                LineView::Error(
                    "!! "@ + ("self/getonline.do"@ + " HTTP "@ + dec(status as nat) + ": "@ + told),
                ),
            ]
        }),
{
}

/// The words of the self-service are told where this device was taken offline, with its
/// address, and where it was not.
pub proof fn law_result_is_told(
    e: ErrandView,
    ip: Seq<char>,
    headers: Seq<(Seq<char>, Seq<char>)>,
    body: Seq<u8>,
    words: Seq<char>,
)
    requires
        json_string_at(body_text(body), "/errmsg"@) == Some(words),
        json_error_of(body_text(body)) is None,
    ensures
        grants(body) ==> errand_after_reply(
            e,
            ErrandStageView::Kicking { ip },
            answered(headers, body),
        ).lines == seq![LineView::Out("下线结果: "@ + words + " (本机 "@ + ip + ")"@)],
        !grants(body) ==> errand_after_reply(
            e,
            ErrandStageView::Kicking { ip },
            answered(headers, body),
        ).lines == seq![LineView::Error("!! "@ + ("下线失败: "@ + words))],
{
}

/// The devices are told one by one, behind their number.
pub proof fn law_list_is_told(
    e: ErrandView,
    headers: Seq<(Seq<char>, Seq<char>)>,
    body: Seq<u8>,
)
    requires
        grants(body),
        !e.take_offline,
    ensures
        ({
            let rows = rows_in(body_text(body));
            let lines = errand_after_reply(
                e,
                ErrandStageView::Listing,
                answered(headers, body),
            ).lines;
            &&& rows.len() == 0 ==> lines == seq![LineView::Out("当前没有在线会话"@)]
            &&& rows.len() > 0 ==> lines.len() == rows.len() + 1 && lines[0] == LineView::Out(
                "账号 "@ + e.username + " 在线设备 "@ + dec(rows.len()) + " 台:"@,
            ) && forall|i: int|
                0 <= i < rows.len() ==> #[trigger] lines[i + 1] == LineView::Out(
                    device_words(rows[i]),
                )
        }),
{
    let rows = rows_in(body_text(body));
    let first = none().push(
        LineView::Out("账号 "@ + e.username + " 在线设备 "@ + dec(rows.len()) + " 台:"@),
    );
    lemma_devices_in_order(first, rows);
}

/// The devices follow the lines before them, in their order.
proof fn lemma_devices_in_order(lines: Seq<LineView>, rows: Seq<RowView>)
    ensures
        with_devices(lines, rows).len() == lines.len() + rows.len(),
        forall|i: int| 0 <= i < lines.len() ==> #[trigger] with_devices(lines, rows)[i] == lines[i],
        forall|i: int|
            0 <= i < rows.len() ==> #[trigger] with_devices(lines, rows)[i + lines.len()]
                == LineView::Out(device_words(rows[i])),
    decreases rows.len(),
{
    if rows.len() > 0 {
        lemma_devices_in_order(lines, rows.drop_last());
    }
}

/// Where this device is not among them, the devices are told one by one, with their
/// addresses, their kind and their system.
pub proof fn law_strangers_are_told(
    e: ErrandView,
    headers: Seq<(Seq<char>, Seq<char>)>,
    body: Seq<u8>,
)
    requires
        grants(body),
        e.take_offline,
        rows_in(body_text(body)).len() > 0,
        own_row(rows_in(body_text(body)), e.mac, e.ip) is None,
    ensures
        ({
            let rows = rows_in(body_text(body));
            let lines = errand_after_reply(
                e,
                ErrandStageView::Listing,
                answered(headers, body),
            ).lines;
            &&& lines.len() == rows.len() + 2
            &&& lines[0] == LineView::Out(
                "在线列表有 "@ + dec(rows.len())
                    + " 台设备, 但没有本机(MAC/IP 均不匹配); 未做任何下线:"@,
            )
            &&& forall|i: int|
                0 <= i < rows.len() ==> #[trigger] lines[i + 1] == LineView::Out(
                    "  "@ + rows[i].account_ip + "  ["@ + rows[i].terminal_type + ":"@
                        + rows[i].os_info + "]  "@ + rows[i].account_mac,
                )
            &&& lines.last() == LineView::Out("提示: 用 --adapter 指定本机网卡后重试"@)
        }),
{
    let rows = rows_in(body_text(body));
    let first = none().push(
        LineView::Out(
            "在线列表有 "@ + dec(rows.len())
                + " 台设备, 但没有本机(MAC/IP 均不匹配); 未做任何下线:"@,
        ),
    );
    lemma_strangers_in_order(first, rows);
}

/// The strangers follow the lines before them, in their order.
proof fn lemma_strangers_in_order(lines: Seq<LineView>, rows: Seq<RowView>)
    ensures
        with_strangers(lines, rows).len() == lines.len() + rows.len(),
        forall|i: int|
            0 <= i < lines.len() ==> #[trigger] with_strangers(lines, rows)[i] == lines[i],
        forall|i: int|
            0 <= i < rows.len() ==> #[trigger] with_strangers(lines, rows)[i + lines.len()]
                == LineView::Out(
                "  "@ + rows[i].account_ip + "  ["@ + rows[i].terminal_type + ":"@ + rows[i].os_info
                    + "]  "@ + rows[i].account_mac,
            ),
    decreases rows.len(),
{
    if rows.len() > 0 {
        lemma_strangers_in_order(lines, rows.drop_last());
    }
}

/// A cookie is what stands before the first semicolon, without the blanks around it.
pub proof fn law_cookie_stands_before_the_semicolon(
    before: Seq<char>,
    cookie: Seq<char>,
    after: Seq<char>,
    attributes: Seq<char>,
)
    requires
        all_white(before),
        all_white(after),
        is_tight(cookie),
        lacks(cookie, ';'),
    ensures
        cookie_part(before + cookie + after + ";"@ + attributes) == cookie,
        cookie_part(before + cookie + after) == cookie,
{
    reveal_strlit(";");
    let value = before + cookie + after;
    let long = value + ";"@ + attributes;
    let n = value.len() as int;
    assert forall|i: int| 0 <= i < n implies #[trigger] value[i] != ';' by {
        if i < before.len() {
            assert(value[i] == before[i]);
            assert(is_white(before[i]));
        } else if i < before.len() + cookie.len() {
            assert(value[i] == cookie[i - before.len()]);
        } else {
            assert(value[i] == after[i - before.len() - cookie.len()]);
            assert(is_white(after[i - before.len() - cookie.len()]));
        }
    }
    assert(long[n] == ';');
    lemma_stops_at(long, ';', n);
    assert(long.take(n) =~= value);
    lemma_first_stop(value, 0, at_char(';'));
    if first_stop(value, 0, at_char(';')) < n {
        assert(value[first_stop(value, 0, at_char(';'))] != ';');
    }
    assert(value.take(n) =~= value);
    law_trimming_drops_white_space(before, cookie, after);
}

/// What is said on the way: that a captcha and a login are asked for, the session with the
/// captcha, the address of the device that is taken offline, and what the test shows.
pub proof fn law_errand_is_told(
    e: ErrandView,
    typed: Seq<char>,
    headers: Seq<(Seq<char>, Seq<char>)>,
    body: Seq<u8>,
    image: Seq<char>,
)
    requires
        trim(typed).len() >= 4,
        grants(body),
        json_string_at(body_text(body), "/data/verifyCode"@) == Some(image),
        base64_bytes(image) is Ok,
    ensures
        errand_first(e, None, None).lines == seq![
            LineView::Log("自助接口: 获取验证码会话(tologin)..."@),
        ],
        after_code(e, typed).lines == seq![LineView::Log("自助接口: 登录自助系统(login)..."@)],
        errand_after_reply(e, ErrandStageView::Captcha, answered(headers, body)).next matches ErrandNextView::AskCode {
            session,
            ..
        } && session == "自助会话: "@ + cookie_after(e.cookie, answered(headers, body))
            + " (脚本可配合 --offline-session 复用)"@,
        errand_after_reply(e, ErrandStageView::Login, answered(headers, body)).lines == seq![
            LineView::Log("自助接口: 查询在线设备(getonline)..."@),
        ],
        after_verdict(Some(false)).lines == seq![LineView::Out("复核: 已断网(回到未认证状态)"@)],
        after_verdict(Some(true)).lines == seq![
            LineView::Out("复核: 仍显示在线(?), 请到自助管理界面确认"@),
        ],
        after_verdict(None).lines == seq![LineView::Out("复核: 无结论"@)],
{
}

/// What is said of the list where this device is to go offline: that it is empty, or which
/// hardware address is named.
pub proof fn law_departure_is_told(
    e: ErrandView,
    headers: Seq<(Seq<char>, Seq<char>)>,
    body: Seq<u8>,
)
    requires
        grants(body),
        e.take_offline,
    ensures
        ({
            let rows = rows_in(body_text(body));
            let lines = errand_after_reply(
                e,
                ErrandStageView::Listing,
                answered(headers, body),
            ).lines;
            &&& rows.len() == 0 ==> lines == seq![
                LineView::Out("当前没有在线会话(可能本机已下线)"@),
            ]
            &&& rows.len() > 0 ==> (own_row(rows, e.mac, e.ip) matches Some(i) ==> lines == seq![
                LineView::Log(
                    "自助接口: 按 MAC 下线 "@ + rows[i].account_mac + " (并清除绑定)..."@,
                ),
            ])
        }),
{
}

} // verus!
