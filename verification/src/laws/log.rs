//! What the log tells of a login and of the tests around it.
use vstd::prelude::*;
use crate::auth::{
    advice, cookie_of, device_label_of, page_step_lines, probe_state, redirect_url, AuthView,
    ProbeView,
};
use crate::common::body_text;
use crate::detect::{arrival_lines, connectivity_lines, last_error, ArrivalView, TargetsView};
use crate::form::form_summary_of;
use crate::http::ReplyView;
use crate::ipv4::ip_text;
use crate::laws::auth::{is_undecided, lemma_decided_at, lemma_undecided};
use crate::laws::http::lemma_stops_at;
use crate::laws::login::{answer, leads_nowhere, lemma_location, lemma_no_location};
use crate::laws::text::{is_free_of, lacks, law_contained_or_free};
use crate::login::{
    cookie_line, field_value, login_after_reply, login_first, page_form, page_notes, pass_field_of,
    template_label_of, user_field_of, StageView,
};
use crate::page::{err_message, form_fields};
use crate::text::dec;

verus! {

// ---------------------------------------------------------------------------
// The login
// ---------------------------------------------------------------------------

/// The log begins with the account, the kind of device, the address to send from and the
/// user agent.
pub proof fn law_log_begins_with_the_account(
    a: AuthView,
    targets: TargetsView,
    username: Seq<char>,
)
    ensures
        ({
            let device = if a.is_mobile {
                "手机端"@
            } else {
                "电脑端"@
            };
            let source = match a.source {
                Some(ip) => ip_text(ip),
                None => "系统默认路由"@,
            };
            login_first(a, targets, username).lines == seq![
                "=== 开始认证: 账号="@ + username + " 设备="@ + device + " 源地址="@ + source
                    + " ==="@,
                "本次 UA: "@ + a.ua,
            ]
        }),
{
}

/// The log tells what a probe shows: an open network by the target that was reached, the
/// portal by where it leads.
pub proof fn law_log_tells_the_probe(
    a: AuthView,
    targets: TargetsView,
    username: Seq<char>,
    password: Seq<char>,
    index: int,
    reply: ReplyView,
)
    requires
        0 <= index < targets.len(),
    ensures
        ({
            let lines = login_after_reply(
                a,
                targets,
                username,
                password,
                StageView::Probing { index },
                reply,
            ).lines;
            let (host, path) = targets[index];
            match probe_state(host, reply) {
                ProbeView::Online => lines == seq![
                    "探测 "@ + host + path + " -> 已放行, 本机已在线"@,
                ],
                ProbeView::Captive(url) => lines == seq![
                    "第 1 步完成: 未认证, 已取得会话绑定参数"@,
                    "  Location = "@ + url,
                ],
                _ => index + 1 < targets.len() ==> lines.len() == 0,
            }
        }),
{
}

/// The log tells that the portal that is given is tried, or that there is none.
pub proof fn law_log_tells_the_given_portal(
    a: AuthView,
    targets: TargetsView,
    username: Seq<char>,
    password: Seq<char>,
    error: Seq<char>,
)
    requires
        targets.len() > 0,
    ensures
        ({
            let lines = login_after_reply(
                a,
                targets,
                username,
                password,
                StageView::Probing { index: targets.len() - 1 },
                Err(error),
            ).lines;
            match a.portal_url {
                Some(p) => lines == seq!["探测不到劫持响应, 改用配置的门户地址: "@ + p],
                None => lines.len() == 3 && lines[0]
                    == "!! 探测不到门户劫持响应, 且未配置门户地址"@,
            }
        }),
{
}

/// The log tells each redirect of the page, from where and to where.
pub proof fn law_log_tells_the_redirect(
    url: Seq<char>,
    status: int,
    before: Seq<(Seq<char>, Seq<char>)>,
    location: Seq<char>,
    after: Seq<(Seq<char>, Seq<char>)>,
    body: Seq<u8>,
)
    requires
        leads_nowhere(before),
    ensures
        page_step_lines(url, answer(status, before.push(("location"@, location)) + after, body))
            == seq!["  跳转 "@ + url + " -> "@ + redirect_url(url, location)],
{
    lemma_location(before, location, after);
}

/// The log tells the name of the cookie that came with the page, never its value; and that
/// there is none.
pub proof fn law_log_tells_the_name_of_the_cookie(name: Seq<char>, value: Seq<char>)
    requires
        lacks(name, '='),
    ensures
        cookie_line(name + "="@ + value) == "第 2 步完成: 已取得会话 Cookie ("@ + name + ")"@,
        cookie_line(Seq::empty()) == "第 2 步完成: 门户未下发 Cookie, 继续尝试"@,
{
    reveal_strlit("=");
    let cookie = name + "="@ + value;
    lemma_stops_at(cookie, '=', name.len() as int);
    assert(cookie.take(name.len() as int) =~= name);
}

/// The log tells for which kind of device the page was made, by what the page loads.
pub proof fn law_log_tells_the_template(html: Seq<char>)
    ensures
        !is_free_of(html, "uploads/mobile/"@) ==> template_label_of(html) == "手机模板"@,
        is_free_of(html, "uploads/mobile/"@) && !is_free_of(html, "uploads/pc/"@)
            ==> template_label_of(html) == "电脑模板"@,
        is_free_of(html, "uploads/mobile/"@) && is_free_of(html, "uploads/pc/"@)
            ==> template_label_of(html) == "未知模板"@,
{
    law_contained_or_free(html, "uploads/mobile/"@);
    law_contained_or_free(html, "uploads/pc/"@);
}

/// The log tells what the page holds: the cookie, the host, a message where there is one,
/// the template; and a warning where a phone was given the page of a computer.
pub proof fn law_log_tells_the_page(a: AuthView, html: Seq<char>, cookie: Seq<char>)
    ensures
        ({
            let host = match field_value(form_fields(html), "hostIp"@) {
                Some(h) => h,
                None => "http://127.0.0.1:8081/"@,
            };
            let template = match field_value(form_fields(html), "templatetype"@) {
                Some(t) => t,
                None => "?"@,
            };
            let first = seq![cookie_line(cookie), "  登录页字段: hostIp="@ + host];
            let message = if err_message(html).len() > 0 {
                seq!["  注意: 登录页自带提示信息: "@ + err_message(html)]
            } else {
                Seq::empty()
            };
            let second = seq![
                "  门户按本次 UA 下发: "@ + template_label_of(html) + " (页面 templatetype="@
                    + template + ")"@,
            ];
            let warning = if a.is_mobile && !is_free_of(html, "uploads/pc/"@) {
                seq!["  !! 警告: 手机端 UA 却被门户下发电脑模板, 设备类型可能被判为电脑"@]
            } else {
                Seq::empty()
            };
            page_notes(a, html, cookie) == first + message + second + warning
        }),
{
    law_contained_or_free(html, "uploads/pc/"@);
    let notes = page_notes(a, html, cookie);
    assert(notes.len() >= 3);
}

/// The log tells the form that is submitted, behind what the page holds.
pub proof fn law_log_tells_the_form(
    a: AuthView,
    targets: TargetsView,
    username: Seq<char>,
    password: Seq<char>,
    url: Seq<char>,
    hop: int,
    headers: Seq<(Seq<char>, Seq<char>)>,
    body: Seq<u8>,
)
    requires
        leads_nowhere(headers),
    ensures
        ({
            let html = body_text(body);
            let template = if a.is_mobile {
                "2"@
            } else {
                "1"@
            };
            login_after_reply(
                a,
                targets,
                username,
                password,
                StageView::Fetching { url, hop },
                answer(200, headers, body),
            ).lines == page_notes(a, html, cookie_of(headers)) + seq![
                "  认证身份: 设备="@ + device_label_of(a.is_mobile) + " templatetype="@ + template,
                "  表单身份字段: 账号="@ + user_field_of(html) + " 密码="@ + pass_field_of(html),
                "  表单明细: "@ + form_summary_of(
                    page_form(a, html, username, password),
                    pass_field_of(html),
                ),
            ]
        }),
{
    lemma_no_location(headers);
}

/// The log tells the status, the size and the message of the portal's answer.
pub proof fn law_log_tells_the_answer(
    a: AuthView,
    targets: TargetsView,
    username: Seq<char>,
    password: Seq<char>,
    status: int,
    headers: Seq<(Seq<char>, Seq<char>)>,
    body: Seq<u8>,
    error: Seq<char>,
)
    ensures
        ({
            let message = err_message(body_text(body));
            let lines = login_after_reply(
                a,
                targets,
                username,
                password,
                StageView::Submitting,
                answer(status, headers, body),
            ).lines;
            &&& lines.len() >= 2
            &&& lines[0] == "第 3 步完成: 认证请求已提交 (HTTP "@ + dec(status as nat) + ", "@ + dec(
                body.len(),
            ) + " 字节)"@
            &&& message.len() > 0 ==> lines[1] == "  门户返回消息: "@ + message
            &&& message.len() == 0 ==> lines[1] == "  门户未返回错误消息, 视为受理"@
        }),
        login_after_reply(a, targets, username, password, StageView::Submitting, Err(error)).lines
            == seq!["!! 提交认证请求失败: "@ + error],
{
}

/// The log tells how each recheck ends, and the last message of the portal where all fail.
pub proof fn law_log_tells_the_recheck(
    a: AuthView,
    targets: TargetsView,
    username: Seq<char>,
    password: Seq<char>,
    message: Seq<char>,
    reply: ReplyView,
)
    requires
        targets.len() > 0,
    ensures
        ({
            let one = login_after_reply(
                a,
                targets,
                username,
                password,
                StageView::Rechecking { attempt: 1, message },
                reply,
            ).lines;
            let two = login_after_reply(
                a,
                targets,
                username,
                password,
                StageView::Rechecking { attempt: 2, message },
                reply,
            ).lines;
            let found = if probe_state(targets[0].0, reply) is Captive {
                " 次: 仍被劫持, 继续等待..."@
            } else {
                " 次: 无结论, 继续等待..."@
            };
            if probe_state(targets[0].0, reply) is Online {
                one == seq!["复核: 200/204 无重定向 -> 已放行"@, "=== 认证成功, 已上线! ==="@]
                    && two == one
            } else {
                &&& one == seq![
                    "复核第 "@ + dec(1) + found,
                    "第 4 步: 等待 3 秒后复核放行 (第 "@ + dec(2) + "/2 次)..."@,
                ]
                &&& message.len() == 0 ==> two == seq![
                    "复核第 "@ + dec(2) + found,
                    "=== 认证失败: 复核仍未放行 ==="@,
                ]
                &&& message.len() > 0 ==> two == seq![
                    "复核第 "@ + dec(2) + found,
                    "=== 认证失败: 复核仍未放行 ==="@,
                    "  最后的门户消息: "@ + message,
                ]
            }
        }),
{
}

/// The advice is to free the slot by hand, and names the self-service.
pub proof fn law_advice_names_the_self_service()
    ensures
        advice() == seq![
            "---- 请手动下线后重试 ----"@,
            "1. 打开自助管理界面: "@ + "http://10.255.2.252/self/index.html#/Login"@,
            "2. 在「在线设备 / 终端管理」中手动下线占用槽位的设备"@,
            "3. 回到本程序重新点击认证"@,
            "说明: 账号限 1 台电脑 + 1 台手机同时在线; 本程序不会自动顶号."@,
        ],
{
}

// ---------------------------------------------------------------------------
// The connectivity test
// ---------------------------------------------------------------------------

/// The log tells each finding by its target: open, held by the portal, or out of reach with
/// the reason. One that shows nothing is not told.
pub proof fn law_log_tells_each_finding(
    before: Seq<ArrivalView>,
    host: Seq<char>,
    path: Seq<char>,
    url: Seq<char>,
    error: Seq<char>,
)
    ensures
        arrival_lines(before.push((host, path, ProbeView::Online))) == arrival_lines(before).push(
            "探测 "@ + host + path + " -> 200/204 无重定向, 已联网(已认证)"@,
        ),
        arrival_lines(before.push((host, path, ProbeView::Captive(url)))) == arrival_lines(
            before,
        ).push("探测 "@ + host + path + " -> 302 被劫持, 未认证"@),
        arrival_lines(before.push((host, path, ProbeView::Unreachable(error)))) == arrival_lines(
            before,
        ).push("探测 "@ + host + path + " -> 网络异常: "@ + error),
        arrival_lines(before.push((host, path, ProbeView::Inconclusive))) == arrival_lines(before),
        arrival_lines(Seq::empty()) == Seq::<Seq<char>>::empty(),
{
    assert(before.push((host, path, ProbeView::Online)).drop_last() =~= before);
    assert(before.push((host, path, ProbeView::Captive(url))).drop_last() =~= before);
    assert(before.push((host, path, ProbeView::Unreachable(error))).drop_last() =~= before);
    assert(before.push((host, path, ProbeView::Inconclusive)).drop_last() =~= before);
}

/// The log tells the findings up to the first that decides, and no later one; where none
/// does, all of them, and that none did.
pub proof fn law_log_ends_with_the_decision(
    before: Seq<ArrivalView>,
    decisive: ArrivalView,
    after: Seq<ArrivalView>,
)
    requires
        forall|i: int| 0 <= i < before.len() ==> is_undecided(#[trigger] before[i]),
        !is_undecided(decisive),
    ensures
        connectivity_lines(before.push(decisive) + after) == arrival_lines(before.push(decisive)),
        connectivity_lines(before).len() == arrival_lines(before).len() + 1,
        forall|i: int|
            0 <= i < arrival_lines(before).len() ==> #[trigger] connectivity_lines(before)[i]
                == arrival_lines(before)[i],
{
    let all = before.push(decisive) + after;
    let n = before.len() as int;
    assert forall|i: int| 0 <= i < n implies is_undecided(#[trigger] all[i]) by {
        assert(all[i] == before[i]);
    }
    lemma_decided_at(all, n);
    assert(all.take(n + 1) =~= before.push(decisive));
    lemma_undecided(before);
}

/// Where no finding decides, the log ends with whether any target was out of reach.
pub proof fn law_log_ends_without_a_decision(before: Seq<ArrivalView>)
    requires
        forall|i: int| 0 <= i < before.len() ==> is_undecided(#[trigger] before[i]),
    ensures
        last_error(before).len() > 0 ==> connectivity_lines(before).last()
            == "三个探测地址均网络异常: 网卡可能未连接"@,
        last_error(before).len() == 0 ==> connectivity_lines(before).last()
            == "三个探测地址均无结论"@,
{
    lemma_undecided(before);
}

} // verus!
