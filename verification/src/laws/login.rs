//! How a login goes, from what the network and the portal answer.
use vstd::prelude::*;
use crate::auth::{base_of, captive, cookie_of, probe_state, redirect_url, AuthView, ProbeView};
use crate::common::{body_text, BADPASS_KEYWORDS, CONFLICT_KEYWORDS};
use crate::detect::TargetsView;
use crate::form::form_body_of;
use crate::http::{header_value, CallView, ReplyView, ResponseView};
use crate::laws::http::law_first_header_counts;
use crate::laws::text::{is_free_of, law_contained_or_free};
use crate::login::{
    base_after_reply, login_after_reply, login_first, page_form, says_bad_password, says_conflict,
    submit_call_of, LoginCode, NextView, StageView,
};
use crate::page::err_message;
use crate::text::{contains, lower};

verus! {

// ---------------------------------------------------------------------------
// What the portal answers to the form
// ---------------------------------------------------------------------------

/// A word by which the portal says that the slot of the device is taken.
pub open spec fn is_conflict_word(word: Seq<char>) -> bool {
    word == "已在线"@ || word == "重复"@ || word == "超限"@ || word == "终端"@ || word == "绑定"@ || word
        == "占用"@
}

/// The place of a word among those that tell of a conflict.
proof fn lemma_conflict_word(word: Seq<char>) -> (i: int)
    requires
        is_conflict_word(word),
    ensures
        0 <= i < 6,
        CONFLICT_KEYWORDS@[i]@ == word,
{
    if word == "已在线"@ {
        0
    } else if word == "重复"@ {
        1
    } else if word == "超限"@ {
        2
    } else if word == "终端"@ {
        3
    } else if word == "绑定"@ {
        4
    } else {
        5
    }
}

/// A message says that the account is in use exactly where one of the words stands in it.
proof fn lemma_says_conflict(message: Seq<char>)
    ensures
        says_conflict(message) == exists|word: Seq<char>| #[trigger]
            is_conflict_word(word) && !is_free_of(message, word),
        says_bad_password(message) == !is_free_of(message, "密码错误"@),
{
    law_contained_or_free(message, "密码错误"@);
    assert(BADPASS_KEYWORDS@[0]@ == "密码错误"@);
    if says_bad_password(message) {
        let i = choose|i: int| 0 <= i < 1 && contains(message, (#[trigger] BADPASS_KEYWORDS@[i])@);
        assert(i == 0);
    }
    if says_conflict(message) {
        let i = choose|i: int| 0 <= i < 6 && contains(message, (#[trigger] CONFLICT_KEYWORDS@[i])@);
        let word = CONFLICT_KEYWORDS@[i]@;
        assert(i == 0 || i == 1 || i == 2 || i == 3 || i == 4 || i == 5);
        assert(is_conflict_word(word));
        law_contained_or_free(message, word);
    }
    if exists|word: Seq<char>| #[trigger] is_conflict_word(word) && !is_free_of(message, word) {
        let word = choose|word: Seq<char>| #[trigger]
            is_conflict_word(word) && !is_free_of(message, word);
        law_contained_or_free(message, word);
        let i = lemma_conflict_word(word);
        assert(contains(message, CONFLICT_KEYWORDS@[i]@));
    }
}

/// The reply to the form that carries a message.
pub open spec fn answer(
    status: int,
    headers: Seq<(Seq<char>, Seq<char>)>,
    body: Seq<u8>,
) -> ReplyView {
    Ok(ResponseView { status, headers, body })
}

/// A message with a word of conflict anywhere in it ends the login at once, with that
/// message and with the advice to take the other device offline by hand.
pub proof fn law_conflict_word_ends_the_login(
    a: AuthView,
    targets: TargetsView,
    username: Seq<char>,
    password: Seq<char>,
    status: int,
    headers: Seq<(Seq<char>, Seq<char>)>,
    body: Seq<u8>,
    before: Seq<char>,
    word: Seq<char>,
    after: Seq<char>,
)
    requires
        is_conflict_word(word),
        err_message(body_text(body)) == before + word + after,
        is_free_of(before + word + after, "密码错误"@),
    ensures
        ({
            let step = login_after_reply(
                a,
                targets,
                username,
                password,
                StageView::Submitting,
                answer(status, headers, body),
            );
            &&& step.next == (NextView::Done {
                ok: false,
                code: LoginCode::Conflict,
                detail: before + word + after,
            })
            &&& step.lines.contains("---- 请手动下线后重试 ----"@)
            &&& step.lines.contains(
                "1. 打开自助管理界面: "@ + "http://10.255.2.252/self/index.html#/Login"@,
            )
        }),
{
    let message = before + word + after;
    lemma_words_are_not_empty();
    lemma_says_conflict(message);
    assert(!is_free_of(message, word));
    assert(is_conflict_word(word) && !is_free_of(message, word));
    let step = login_after_reply(
        a,
        targets,
        username,
        password,
        StageView::Submitting,
        answer(status, headers, body),
    );
    assert(step.lines[3] == "---- 请手动下线后重试 ----"@);
    assert(step.lines[4] == "1. 打开自助管理界面: "@
        + "http://10.255.2.252/self/index.html#/Login"@);
}

/// The words of the portal are not empty.
proof fn lemma_words_are_not_empty()
    ensures
        forall|word: Seq<char>| #[trigger] is_conflict_word(word) ==> word.len() > 0,
        "密码错误"@.len() > 0,
{
    reveal_strlit("已在线");
    reveal_strlit("重复");
    reveal_strlit("超限");
    reveal_strlit("终端");
    reveal_strlit("绑定");
    reveal_strlit("占用");
    reveal_strlit("密码错误");
}

/// A message that speaks of a wrong password anywhere in it ends the login at once, with
/// that message, whatever else it says.
pub proof fn law_wrong_password_ends_the_login(
    a: AuthView,
    targets: TargetsView,
    username: Seq<char>,
    password: Seq<char>,
    status: int,
    headers: Seq<(Seq<char>, Seq<char>)>,
    body: Seq<u8>,
    before: Seq<char>,
    after: Seq<char>,
)
    requires
        err_message(body_text(body)) == before + "密码错误"@ + after,
    ensures
        login_after_reply(
            a,
            targets,
            username,
            password,
            StageView::Submitting,
            answer(status, headers, body),
        ).next == (NextView::Done {
            ok: false,
            code: LoginCode::BadPassword,
            detail: before + "密码错误"@ + after,
        }),
{
    lemma_words_are_not_empty();
    lemma_says_conflict(before + "密码错误"@ + after);
    assert(!is_free_of(before + "密码错误"@ + after, "密码错误"@));
}

/// Any other message decides nothing: after three seconds the first target is probed again.
pub proof fn law_other_answer_is_rechecked(
    a: AuthView,
    targets: TargetsView,
    username: Seq<char>,
    password: Seq<char>,
    status: int,
    headers: Seq<(Seq<char>, Seq<char>)>,
    body: Seq<u8>,
)
    requires
        is_free_of(err_message(body_text(body)), "密码错误"@),
        forall|word: Seq<char>| #[trigger]
            is_conflict_word(word) ==> is_free_of(err_message(body_text(body)), word),
    ensures
        login_after_reply(
            a,
            targets,
            username,
            password,
            StageView::Submitting,
            answer(status, headers, body),
        ).next == (NextView::Send {
            stage: StageView::Rechecking { attempt: 1, message: err_message(body_text(body)) },
            wait_secs: 3,
            call: probing(targets[0]),
        }),
{
    lemma_says_conflict(err_message(body_text(body)));
}

/// A form that got no answer is a login that failed.
pub proof fn law_unanswered_form_fails(
    a: AuthView,
    targets: TargetsView,
    username: Seq<char>,
    password: Seq<char>,
    error: Seq<char>,
)
    ensures
        login_after_reply(a, targets, username, password, StageView::Submitting, Err(error)).next
            == (NextView::Done {
            ok: false,
            code: LoginCode::Failure,
            detail: "POST 失败: "@ + error,
        }),
{
}

// ---------------------------------------------------------------------------
// What a target answers to a probe
// ---------------------------------------------------------------------------

/// The request that probes a target.
pub open spec fn probing(target: (Seq<char>, Seq<char>)) -> CallView {
    CallView {
        method: "GET"@,
        url: "http://"@ + target.0 + target.1,
        headers: seq![("Accept"@, "*/*"@)],
        body: None,
    }
}

/// No header says where to go.
pub open spec fn leads_nowhere(headers: Seq<(Seq<char>, Seq<char>)>) -> bool {
    forall|i: int| 0 <= i < headers.len() ==> (#[trigger] headers[i]).0 != "location"@
}

/// A response that leads nowhere has no location.
pub proof fn lemma_no_location(headers: Seq<(Seq<char>, Seq<char>)>)
    requires
        leads_nowhere(headers),
    ensures
        header_value(headers, "Location"@) is None,
{
    reveal_strlit("Location");
    reveal_strlit("location");
    assert(lower("Location"@) =~= "location"@);
    law_first_header_counts(headers, "location"@, "location"@, Seq::empty(), "Location"@);
}

/// The first header that says where to go counts.
pub proof fn lemma_location(
    before: Seq<(Seq<char>, Seq<char>)>,
    location: Seq<char>,
    after: Seq<(Seq<char>, Seq<char>)>,
)
    requires
        leads_nowhere(before),
    ensures
        header_value(before.push(("location"@, location)) + after, "Location"@) == Some(location),
{
    reveal_strlit("Location");
    reveal_strlit("location");
    assert(lower("Location"@) =~= "location"@);
    law_first_header_counts(before, "location"@, location, after, "Location"@);
}

/// A target that answers with status 200 or 204 and leads nowhere shows an open network,
/// whatever its body; any other status, and no answer at all, show nothing.
pub proof fn law_probe_is_read(
    host: Seq<char>,
    status: int,
    headers: Seq<(Seq<char>, Seq<char>)>,
    body: Seq<u8>,
    error: Seq<char>,
)
    requires
        leads_nowhere(headers),
    ensures
        status == 200 || status == 204 ==> probe_state(host, answer(status, headers, body))
            is Online,
        status != 200 && status != 204 ==> probe_state(host, answer(status, headers, body))
            is Inconclusive,
        probe_state(host, Err(error)) == ProbeView::Unreachable(error),
{
    lemma_no_location(headers);
}

/// A target that leads elsewhere shows the portal, or an ordinary redirect, by where it leads
/// alone.
pub proof fn law_redirect_is_read(
    host: Seq<char>,
    status: int,
    before: Seq<(Seq<char>, Seq<char>)>,
    location: Seq<char>,
    after: Seq<(Seq<char>, Seq<char>)>,
    body: Seq<u8>,
)
    requires
        leads_nowhere(before),
    ensures
        probe_state(host, answer(status, before.push(("location"@, location)) + after, body)) == (
        match captive(host, location) {
            Some(url) => ProbeView::Captive(url),
            None => ProbeView::Inconclusive,
        }),
{
    lemma_location(before, location, after);
}

/// Where a login goes after a probe: an open network needs no login; the portal is asked
/// for its page, by the user agent of the device; otherwise the next target is probed, and
/// after the last one the portal that is given is asked, or the login ends without one.
pub proof fn law_login_follows_the_probe(
    a: AuthView,
    targets: TargetsView,
    username: Seq<char>,
    password: Seq<char>,
    index: int,
    reply: ReplyView,
)
    requires
        0 <= index < targets.len(),
    ensures
        ({
            let next = login_after_reply(
                a,
                targets,
                username,
                password,
                StageView::Probing { index },
                reply,
            ).next;
            let found = probe_state(targets[index].0, reply);
            &&& found is Online ==> next == (NextView::Done {
                ok: true,
                code: LoginCode::Already,
                detail: "已在线"@,
            })
            &&& found matches ProbeView::Captive(url) ==> next == (NextView::Send {
                stage: StageView::Fetching { url, hop: 0 },
                wait_secs: 0,
                call: fetching(a.ua, url),
            })
            &&& (found is Inconclusive || found is Unreachable) && index + 1 < targets.len()
                ==> next == (NextView::Send {
                stage: StageView::Probing { index: index + 1 },
                wait_secs: 0,
                call: probing(targets[index + 1]),
            })
            &&& (found is Inconclusive || found is Unreachable) && index + 1 == targets.len() ==> (
            match a.portal_url {
                Some(p) => next == (NextView::Send {
                    stage: StageView::Fetching { url: p, hop: 0 },
                    wait_secs: 0,
                    call: fetching(a.ua, p),
                }),
                None => next matches NextView::Done { ok, code, .. } && !ok && code
                    == LoginCode::NoPortal,
            })
        }),
{
}

/// A login begins by probing the first target.
pub proof fn law_login_begins_with_a_probe(a: AuthView, targets: TargetsView, username: Seq<char>)
    ensures
        login_first(a, targets, username).next == (NextView::Send {
            stage: StageView::Probing { index: 0 },
            wait_secs: 0,
            call: probing(targets[0]),
        }),
{
}

/// After the form, an open network is success, with the message of the portal. There are two
/// rechecks, three seconds apart; a network that stays closed is failure.
pub proof fn law_recheck_decides(
    a: AuthView,
    targets: TargetsView,
    username: Seq<char>,
    password: Seq<char>,
    message: Seq<char>,
    reply: ReplyView,
)
    requires
        targets.len() > 0,
    ensures
        ({
            let first = login_after_reply(
                a,
                targets,
                username,
                password,
                StageView::Rechecking { attempt: 1, message },
                reply,
            ).next;
            let second = login_after_reply(
                a,
                targets,
                username,
                password,
                StageView::Rechecking { attempt: 2, message },
                reply,
            ).next;
            let done = NextView::Done { ok: true, code: LoginCode::Success, detail: message };
            let found = probe_state(targets[0].0, reply);
            &&& found is Online ==> first == done && second == done
            &&& !(found is Online) ==> first == (NextView::Send {
                stage: StageView::Rechecking { attempt: 2, message },
                wait_secs: 3,
                call: probing(targets[0]),
            }) && second == (NextView::Done {
                ok: false,
                code: LoginCode::Failure,
                detail: if message.len() > 0 {
                    message
                } else {
                    "复核未放行"@
                },
            })
        }),
{
}

// ---------------------------------------------------------------------------
// What the portal answers to a request for its page
// ---------------------------------------------------------------------------

/// The headers of a browser.
pub open spec fn as_browser(ua: Seq<char>) -> Seq<(Seq<char>, Seq<char>)> {
    seq![
        ("User-Agent"@, ua),
        ("Accept"@, "text/html,application/xhtml+xml,application/xml;q=0.9,*/*;q=0.8"@),
        ("Accept-Language"@, "zh-CN,zh;q=0.9"@),
    ]
}

/// The request for a page.
pub open spec fn fetching(ua: Seq<char>, url: Seq<char>) -> CallView {
    CallView { method: "GET"@, url, headers: as_browser(ua), body: None }
}

/// A page that comes back with status 200 is answered: its form goes to where the page came
/// from, with its cookie. Any other status, and no answer, end the login.
pub proof fn law_page_is_answered(
    a: AuthView,
    targets: TargetsView,
    username: Seq<char>,
    password: Seq<char>,
    url: Seq<char>,
    hop: int,
    status: int,
    headers: Seq<(Seq<char>, Seq<char>)>,
    body: Seq<u8>,
    error: Seq<char>,
)
    requires
        leads_nowhere(headers),
    ensures
        ({
            let stage = StageView::Fetching { url, hop };
            let next = login_after_reply(
                a,
                targets,
                username,
                password,
                stage,
                answer(status, headers, body),
            ).next;
            let lost = login_after_reply(a, targets, username, password, stage, Err(error)).next;
            let cookie = cookie_of(headers);
            &&& status == 200 ==> next == (NextView::Send {
                stage: StageView::Submitting,
                wait_secs: 0,
                call: CallView {
                    method: "POST"@,
                    url,
                    headers: as_browser(a.ua) + seq![
                        ("Content-Type"@, "application/x-www-form-urlencoded"@),
                        ("Referer"@, url),
                        ("Cookie"@, cookie),
                    ],
                    body: Some(
                        form_body_of(
                            page_form(a, body_text(body), username, password),
                        ),
                    ),
                },
            })
            &&& status != 200 ==> (next matches NextView::Done { ok, code, .. } && !ok && code
                == LoginCode::Unreachable)
            &&& lost == (NextView::Done {
                ok: false,
                code: LoginCode::Unreachable,
                detail: "门户连接失败: "@ + error,
            })
        }),
{
    lemma_no_location(headers);
    let html = body_text(body);
    let cookie = cookie_of(headers);
    let sent = submit_call_of(a, url, html, cookie, username, password).headers;
    assert(sent =~= as_browser(a.ua) + seq![
        ("Content-Type"@, "application/x-www-form-urlencoded"@),
        ("Referer"@, url),
        ("Cookie"@, cookie),
    ]);
}

/// Redirects of the page are followed twice, and the third ends the login.
pub proof fn law_redirects_are_followed_twice(
    a: AuthView,
    targets: TargetsView,
    username: Seq<char>,
    password: Seq<char>,
    url: Seq<char>,
    hop: int,
    status: int,
    before: Seq<(Seq<char>, Seq<char>)>,
    location: Seq<char>,
    after: Seq<(Seq<char>, Seq<char>)>,
    body: Seq<u8>,
)
    requires
        leads_nowhere(before),
        0 <= hop <= 2,
    ensures
        ({
            let next = login_after_reply(
                a,
                targets,
                username,
                password,
                StageView::Fetching { url, hop },
                answer(status, before.push(("location"@, location)) + after, body),
            ).next;
            let to = redirect_url(url, location);
            &&& hop < 2 ==> next == (NextView::Send {
                stage: StageView::Fetching { url: to, hop: hop + 1 },
                wait_secs: 0,
                call: fetching(a.ua, to),
            })
            &&& hop == 2 ==> (next matches NextView::Done { ok, code, .. } && !ok && code
                == LoginCode::Unreachable)
        }),
{
    lemma_location(before, location, after);
}

/// A probe that shows the portal tells its base, which is kept; nothing else changes it.
pub proof fn law_base_is_discovered(
    a: AuthView,
    targets: TargetsView,
    index: int,
    stage: StageView,
    reply: ReplyView,
)
    requires
        0 <= index < targets.len(),
    ensures
        probe_state(targets[index].0, reply) matches ProbeView::Captive(url) ==> base_after_reply(
            a,
            targets,
            StageView::Probing { index },
            reply,
        ) == Some(base_of(url)),
        !(probe_state(targets[index].0, reply) is Captive) ==> base_after_reply(
            a,
            targets,
            StageView::Probing { index },
            reply,
        ) == a.discovered_base,
        !(stage is Probing) ==> base_after_reply(a, targets, stage, reply) == a.discovered_base,
{
}

} // verus!
