//! The course of a login: probe, fetch the login page, submit the form, and look whether
//! the network is open. Each step takes what the last request came to, and says what to
//! log and what to request next.
use vstd::prelude::*;
use crate::auth::{
    advice, base_of, browser_headers, cookie_of, device_label_of, headers_of_browser, page_call_of,
    page_step, page_step_lines, probe_call, probe_call_of, probe_state, url_base, Auth, AuthView,
    PageStep, PageView, ProbeState, ProbeView,
};
use crate::common::{
    body_text, decode_body, fits_decoder, BADPASS_KEYWORDS, BASE_FORM_DEFAULTS, CONFLICT_KEYWORDS,
};
use crate::detect::TargetsView;
use crate::form::{
    form_body, form_body_of, form_summary, form_summary_of, law_summary_hides_the_password,
    login_form, login_form_of, named, template_of, FieldView,
};
use crate::http::{
    add_header, agent_count, agent_header, law_one_user_agent, reply_view, sent_headers, Call,
    CallView, Reply, ReplyView, ResponseView,
};
use crate::ipv4::{ip_text, Ipv4};
use crate::page::{
    account_field, detect_credential_fields, err_message, extract_err_message, form_fields,
    form_inputs, parse_form_fields, parse_form_inputs, password_field,
};
use crate::text::{
    at_char, chars_of, contains, contains_text, dec, dec_text, first_stop, first_where, join2,
    join3, join4, join5, lemma_first_where, lower, note, pair_view, pairs, same_text, scan_to_char,
    text_of, texts,
};

verus! {

// ---------------------------------------------------------------------------
// Stages
// ---------------------------------------------------------------------------

/// How a login ended.
#[derive(Debug, Clone, Copy, PartialEq, Eq, Structural)]
pub enum LoginCode {
    /// The network was open from the start.
    Already,
    /// The login opened the network.
    Success,
    /// The portal refused the password.
    BadPassword,
    /// The account is in use on as many devices as it may be.
    Conflict,
    /// The login page could not be had.
    Unreachable,
    /// No probe showed the portal, and no address of it was given.
    NoPortal,
    /// The network stayed closed.
    Failure,
}

/// How far a login has come.
#[derive(Debug)]
pub enum LoginStage {
    /// The target at `index` is being probed.
    Probing { index: usize },
    /// The login page is being fetched from `url`, after `hop` redirects.
    Fetching { url: String, hop: u8 },
    /// The form has been submitted.
    Submitting,
    /// The network is being probed again; `message` is what the portal answered.
    Rechecking { attempt: u8, message: String },
}

/// What comes next in a login.
#[derive(Debug)]
pub enum LoginNext {
    /// A request to make, after a wait.
    Send { stage: LoginStage, wait_secs: u64, call: Call },
    /// The login is over.
    Done { ok: bool, code: LoginCode, detail: String },
}

/// A step of a login: what to log, and what comes next.
#[derive(Debug)]
pub struct LoginStep {
    pub lines: Vec<String>,
    pub next: LoginNext,
}

/// How far a login has come, as plain values.
#[verifier::ext_equal]
pub enum StageView {
    Probing { index: int },
    Fetching { url: Seq<char>, hop: int },
    Submitting,
    Rechecking { attempt: int, message: Seq<char> },
}

/// What comes next in a login, as plain values.
#[verifier::ext_equal]
pub enum NextView {
    Send { stage: StageView, wait_secs: int, call: CallView },
    Done { ok: bool, code: LoginCode, detail: Seq<char> },
}

/// A step of a login, as plain values.
#[verifier::ext_equal]
pub struct StepView {
    pub lines: Seq<Seq<char>>,
    pub next: NextView,
}

impl View for LoginStage {
    type V = StageView;

    open spec fn view(&self) -> StageView {
        match self {
            LoginStage::Probing { index } => StageView::Probing { index: *index as int },
            LoginStage::Fetching { url, hop } => StageView::Fetching { url: url@, hop: *hop as int },
            LoginStage::Submitting => StageView::Submitting,
            LoginStage::Rechecking { attempt, message } => StageView::Rechecking {
                attempt: *attempt as int,
                message: message@,
            },
        }
    }
}

impl View for LoginNext {
    type V = NextView;

    open spec fn view(&self) -> NextView {
        match self {
            LoginNext::Send { stage, wait_secs, call } => NextView::Send {
                stage: stage@,
                wait_secs: *wait_secs as int,
                call: call@,
            },
            LoginNext::Done { ok, code, detail } => NextView::Done {
                ok: *ok,
                code: *code,
                detail: detail@,
            },
        }
    }
}

impl View for LoginStep {
    type V = StepView;

    open spec fn view(&self) -> StepView {
        StepView { lines: texts(self.lines@), next: self.next@ }
    }
}

// ---------------------------------------------------------------------------
// What each step does
// ---------------------------------------------------------------------------

/// No lines.
pub open spec fn no_lines() -> Seq<Seq<char>> {
    Seq::empty()
}

/// The address that requests leave from.
pub open spec fn source_label(source: Option<Ipv4>) -> Seq<char> {
    match source {
        Some(ip) => ip_text(ip),
        None => "系统默认路由"@,
    }
}

/// Probing the target at `index` comes next.
pub open spec fn login_probe(targets: TargetsView, index: int) -> NextView {
    NextView::Send {
        stage: StageView::Probing { index },
        wait_secs: 0,
        call: probe_call_of(targets[index].0, targets[index].1),
    }
}

/// Fetching the login page comes next.
pub open spec fn login_fetch(a: AuthView, url: Seq<char>, hop: int) -> NextView {
    NextView::Send {
        stage: StageView::Fetching { url, hop },
        wait_secs: 0,
        call: page_call_of(a.ua, url),
    }
}

/// Probing again comes next, after three seconds.
pub open spec fn login_recheck(targets: TargetsView, attempt: int, message: Seq<char>) -> NextView {
    NextView::Send {
        stage: StageView::Rechecking { attempt, message },
        wait_secs: 3,
        call: probe_call_of(targets[0].0, targets[0].1),
    }
}

/// The login is over.
pub open spec fn login_done(ok: bool, code: LoginCode, detail: Seq<char>) -> NextView {
    NextView::Done { ok, code, detail }
}

/// A login begins with the first target.
pub open spec fn login_first(a: AuthView, targets: TargetsView, username: Seq<char>) -> StepView {
    StepView {
        lines: no_lines().push(
            "=== 开始认证: 账号="@ + username + " 设备="@ + device_label_of(a.is_mobile)
                + " 源地址="@ + source_label(a.source) + " ==="@,
        ).push("本次 UA: "@ + a.ua),
        next: login_probe(targets, 0),
    }
}

/// No target showed anything: the login page is at the address that was given, or the
/// portal is not known.
pub open spec fn after_probes(a: AuthView) -> StepView {
    match a.portal_url {
        Some(p) => StepView {
            lines: no_lines().push("探测不到劫持响应, 改用配置的门户地址: "@ + p),
            next: login_fetch(a, p, 0),
        },
        None => StepView {
            lines: no_lines().push("!! 探测不到门户劫持响应, 且未配置门户地址"@).push(
                "   手动获取办法: 浏览器打开任意 http 网站(如 http://www.msftconnecttest.com/connecttest.txt),"@,
            ).push(
                "   地址栏会跳到校园网认证页 — 把那个地址整条复制到「门户地址」框里再试。"@,
            ),
            next: login_done(
                false,
                LoginCode::NoPortal,
                "未探测到门户, 请手动填写门户地址(浏览器打开任意 http 网站, 复制跳转后的地址)"@,
            ),
        },
    }
}

/// After a probe: an open network needs no login; the portal's redirect leads to the login
/// page; anything else decides nothing, and the next target is probed.
pub open spec fn after_probe(a: AuthView, targets: TargetsView, index: int, reply: ReplyView) -> StepView {
    let (host, path) = targets[index];
    match probe_state(host, reply) {
        ProbeView::Online => StepView {
            lines: no_lines().push("探测 "@ + host + path + " -> 已放行, 本机已在线"@),
            next: login_done(true, LoginCode::Already, "已在线"@),
        },
        ProbeView::Captive(url) => StepView {
            lines: no_lines().push(
                "第 1 步完成: 未认证, 已取得会话绑定参数"@,
            ).push("  Location = "@ + url),
            next: login_fetch(a, url, 0),
        },
        _ => if index + 1 < targets.len() {
            StepView { lines: no_lines(), next: login_probe(targets, index + 1) }
        } else {
            after_probes(a)
        },
    }
}

/// The value of the first field with a name.
pub open spec fn field_value(fields: Seq<FieldView>, name: Seq<char>) -> Option<Seq<char>> {
    match first_where(fields, named(name), 0) {
        Some(i) => Some(fields[i].1),
        None => None,
    }
}

/// The text, or another where there is none.
pub open spec fn or_text(s: Option<Seq<char>>, other: Seq<char>) -> Seq<char> {
    match s {
        Some(t) => t,
        None => other,
    }
}

/// The field of a login page that takes the account.
pub open spec fn user_field_of(html: Seq<char>) -> Seq<char> {
    or_text(account_field(form_inputs(html)), "userId"@)
}

/// The field of a login page that takes the password.
pub open spec fn pass_field_of(html: Seq<char>) -> Seq<char> {
    or_text(password_field(form_inputs(html)), "passwd"@)
}

/// The form that is submitted for a login page.
pub open spec fn page_form(
    a: AuthView,
    html: Seq<char>,
    username: Seq<char>,
    password: Seq<char>,
) -> Seq<FieldView> {
    login_form_of(
        form_fields(html),
        a.is_mobile,
        user_field_of(html),
        pass_field_of(html),
        username,
        password,
    )
}

/// The request that submits the form: to the address of the login page, with its cookie.
pub open spec fn submit_call_of(
    a: AuthView,
    url: Seq<char>,
    html: Seq<char>,
    cookie: Seq<char>,
    username: Seq<char>,
    password: Seq<char>,
) -> CallView {
    CallView {
        method: "POST"@,
        url,
        headers: browser_headers(a.ua).push(
            ("Content-Type"@, "application/x-www-form-urlencoded"@),
        ).push(("Referer"@, url)).push(("Cookie"@, cookie)),
        body: Some(form_body_of(page_form(a, html, username, password))),
    }
}

/// Appends a line where there is something to say.
pub open spec fn push_if(lines: Seq<Seq<char>>, say: bool, line: Seq<char>) -> Seq<Seq<char>> {
    if say {
        lines.push(line)
    } else {
        lines
    }
}

/// The kind of template that a login page is.
pub open spec fn template_label_of(html: Seq<char>) -> Seq<char> {
    if contains(html, "uploads/mobile/"@) {
        "手机模板"@
    } else if contains(html, "uploads/pc/"@) {
        "电脑模板"@
    } else {
        "未知模板"@
    }
}

/// The log line on the cookie of a login page. Of the cookie it shows the name alone.
pub open spec fn cookie_line(cookie: Seq<char>) -> Seq<char> {
    if cookie.len() == 0 {
        "第 2 步完成: 门户未下发 Cookie, 继续尝试"@
    } else {
        "第 2 步完成: 已取得会话 Cookie ("@ + cookie.take(
            first_stop(cookie, 0, at_char('=')),
        ) + ")"@
    }
}

/// The log lines on a login page.
pub open spec fn page_notes(a: AuthView, html: Seq<char>, cookie: Seq<char>) -> Seq<Seq<char>> {
    let fields = form_fields(html);
    let said = push_if(
        no_lines().push(cookie_line(cookie)).push(
            "  登录页字段: hostIp="@ + or_text(
                field_value(fields, "hostIp"@),
                BASE_FORM_DEFAULTS@[2].1@,
            ),
        ),
        err_message(html).len() > 0,
        "  注意: 登录页自带提示信息: "@ + err_message(html),
    );
    push_if(
        said.push(
            "  门户按本次 UA 下发: "@ + template_label_of(html) + " (页面 templatetype="@ + or_text(
                field_value(fields, "templatetype"@),
                "?"@,
            ) + ")"@,
        ),
        a.is_mobile && contains(html, "uploads/pc/"@),
        "  !! 警告: 手机端 UA 却被门户下发电脑模板, 设备类型可能被判为电脑"@,
    )
}

/// The log lines on the form.
pub open spec fn form_notes(
    lines: Seq<Seq<char>>,
    a: AuthView,
    html: Seq<char>,
    username: Seq<char>,
    password: Seq<char>,
) -> Seq<Seq<char>> {
    lines.push(
        "  认证身份: 设备="@ + device_label_of(a.is_mobile) + " templatetype="@ + template_of(
            a.is_mobile,
        ),
    ).push(
        "  表单身份字段: 账号="@ + user_field_of(html) + " 密码="@ + pass_field_of(html),
    ).push(
        "  表单明细: "@ + form_summary_of(
            page_form(a, html, username, password),
            pass_field_of(html),
        ),
    )
}

/// After a request for the login page: redirects are followed; the form of the page is
/// filled in and submitted.
pub open spec fn after_fetch(
    a: AuthView,
    username: Seq<char>,
    password: Seq<char>,
    url: Seq<char>,
    hop: int,
    reply: ReplyView,
) -> StepView {
    let lines = page_step_lines(url, reply);
    match page_step(url, hop, reply) {
        PageView::Follow(next) => StepView { lines, next: login_fetch(a, next, hop + 1) },
        PageView::Failed(e) => StepView {
            lines: lines.push("!! 获取登录页失败: "@ + e),
            next: login_done(
                false,
                LoginCode::Unreachable,
                "门户连接失败: "@ + e,
            ),
        },
        PageView::Page { html, cookie } => StepView {
            lines: form_notes(page_notes(a, html, cookie), a, html, username, password),
            next: NextView::Send {
                stage: StageView::Submitting,
                wait_secs: 0,
                call: submit_call_of(a, url, html, cookie, username, password),
            },
        },
    }
}

/// A message says that the password is wrong.
pub open spec fn says_bad_password(message: Seq<char>) -> bool {
    exists|i: int| 0 <= i < 1 && contains(message, (#[trigger] BADPASS_KEYWORDS@[i])@)
}

/// A message says that the account is in use.
pub open spec fn says_conflict(message: Seq<char>) -> bool {
    exists|i: int| 0 <= i < 6 && contains(message, (#[trigger] CONFLICT_KEYWORDS@[i])@)
}

/// The log line of a recheck.
pub open spec fn recheck_line(attempt: int) -> Seq<char> {
    "第 4 步: 等待 3 秒后复核放行 (第 "@ + dec(attempt as nat) + "/2 次)..."@
}

/// After the form was submitted: a wrong password and an account in use end the login;
/// anything else is for a recheck to decide.
pub open spec fn after_submit(targets: TargetsView, reply: ReplyView) -> StepView {
    match reply {
        Err(e) => StepView {
            lines: no_lines().push("!! 提交认证请求失败: "@ + e),
            next: login_done(false, LoginCode::Failure, "POST 失败: "@ + e),
        },
        Ok(resp) => {
            let message = err_message(body_text(resp.body));
            let lines = no_lines().push(
                "第 3 步完成: 认证请求已提交 (HTTP "@ + dec(resp.status as nat) + ", "@ + dec(
                    resp.body.len(),
                ) + " 字节)"@,
            ).push(
                if message.len() > 0 {
                    "  门户返回消息: "@ + message
                } else {
                    "  门户未返回错误消息, 视为受理"@
                },
            );
            if message.len() > 0 && says_bad_password(message) {
                StepView { lines, next: login_done(false, LoginCode::BadPassword, message) }
            } else if message.len() > 0 && says_conflict(message) {
                StepView {
                    lines: lines.push(
                        "!! 检测到槽位冲突(已在线/终端数超限类)"@,
                    ) + advice(),
                    next: login_done(false, LoginCode::Conflict, message),
                }
            } else {
                StepView {
                    lines: lines.push(recheck_line(1)),
                    next: login_recheck(targets, 1, message),
                }
            }
        },
    }
}

/// After a recheck: only an open network is success. There are two.
pub open spec fn after_recheck(
    targets: TargetsView,
    attempt: int,
    message: Seq<char>,
    reply: ReplyView,
) -> StepView {
    match probe_state(targets[0].0, reply) {
        ProbeView::Online => StepView {
            lines: no_lines().push("复核: 200/204 无重定向 -> 已放行"@).push(
                "=== 认证成功, 已上线! ==="@,
            ),
            next: login_done(true, LoginCode::Success, message),
        },
        state => {
            let lines = no_lines().push(
                "复核第 "@ + dec(attempt as nat) + (if state is Captive {
                    " 次: 仍被劫持, 继续等待..."@
                } else {
                    " 次: 无结论, 继续等待..."@
                }),
            );
            if attempt < 2 {
                StepView {
                    lines: lines.push(recheck_line(attempt + 1)),
                    next: login_recheck(targets, attempt + 1, message),
                }
            } else {
                StepView {
                    lines: push_if(
                        lines.push("=== 认证失败: 复核仍未放行 ==="@),
                        message.len() > 0,
                        "  最后的门户消息: "@ + message,
                    ),
                    next: login_done(
                        false,
                        LoginCode::Failure,
                        if message.len() > 0 {
                            message
                        } else {
                            "复核未放行"@
                        },
                    ),
                }
            }
        },
    }
}

/// A login goes on from what a request came to.
pub open spec fn login_after_reply(
    a: AuthView,
    targets: TargetsView,
    username: Seq<char>,
    password: Seq<char>,
    stage: StageView,
    reply: ReplyView,
) -> StepView {
    match stage {
        StageView::Probing { index } => after_probe(a, targets, index, reply),
        StageView::Fetching { url, hop } => after_fetch(a, username, password, url, hop, reply),
        StageView::Submitting => after_submit(targets, reply),
        StageView::Rechecking { attempt, message } => after_recheck(
            targets,
            attempt,
            message,
            reply,
        ),
    }
}

/// The base of the portal that a login knows of after a request: a probe that shows the
/// portal tells.
pub open spec fn base_after_reply(
    a: AuthView,
    targets: TargetsView,
    stage: StageView,
    reply: ReplyView,
) -> Option<Seq<char>> {
    match stage {
        StageView::Probing { index } => match probe_state(targets[index].0, reply) {
            ProbeView::Captive(url) => Some(base_of(url)),
            _ => a.discovered_base,
        },
        _ => a.discovered_base,
    }
}

// ---------------------------------------------------------------------------
// The steps
// ---------------------------------------------------------------------------

/// No lines.
fn new_lines() -> (r: Vec<String>)
    ensures
        texts(r@) == no_lines(),
{
    let lines: Vec<String> = Vec::new();
    assert(texts(lines@) == no_lines());
    lines
}

/// Probing the target at `index` comes next.
fn probe_next(targets: &[(String, String)], index: usize) -> (r: LoginNext)
    requires
        index < targets@.len(),
    ensures
        r@ == login_probe(pairs(targets@), index as int),
{
    let (host, path) = &targets[index];
    assert(pairs(targets@)[index as int] == pair_view(targets@[index as int]));
    LoginNext::Send {
        stage: LoginStage::Probing { index },
        wait_secs: 0,
        call: probe_call(host, path),
    }
}

/// Probing again comes next.
fn recheck_next(targets: &[(String, String)], attempt: u8, message: String) -> (r: LoginNext)
    requires
        targets@.len() > 0,
    ensures
        r@ == login_recheck(pairs(targets@), attempt as int, message@),
{
    let (host, path) = &targets[0];
    assert(pairs(targets@)[0] == pair_view(targets@[0]));
    LoginNext::Send {
        stage: LoginStage::Rechecking { attempt, message },
        wait_secs: 3,
        call: probe_call(host, path),
    }
}

/// The log line of a recheck.
fn line_of_recheck(attempt: u8) -> (r: String)
    ensures
        r@ == recheck_line(attempt as int),
{
    join3("第 4 步: 等待 3 秒后复核放行 (第 ", &dec_text(attempt as u64), "/2 次)...")
}

/// The value of the first field with a name, or another text where there is none.
fn value_or(fields: &Vec<(String, String)>, name: &str, other: &str) -> (r: String)
    ensures
        r@ == or_text(field_value(pairs(fields@), name@), other@),
{
    let mut i: usize = 0;
    while i < fields.len()
        invariant
            i <= fields@.len(),
            first_where(pairs(fields@), named(name@), 0) == first_where(
                pairs(fields@),
                named(name@),
                i as int,
            ),
        decreases fields@.len() - i,
    {
        assert(pairs(fields@)[i as int] == pair_view(fields@[i as int]));
        if same_text(&fields[i].0, name) {
            return fields[i].1.as_str().to_owned();
        }
        i += 1;
    }
    other.to_owned()
}

/// Whether a message says that the password is wrong.
fn tells_bad_password(message: &[char]) -> (r: bool)
    ensures
        r == says_bad_password(message@),
{
    let found = contains_text(message, &chars_of(BADPASS_KEYWORDS[0]));
    assert(BADPASS_KEYWORDS@[0]@ == BADPASS_KEYWORDS[0]@);
    found
}

/// Whether a message says that the account is in use.
fn tells_conflict(message: &[char]) -> (r: bool)
    ensures
        r == says_conflict(message@),
{
    let mut i: usize = 0;
    while i < 6
        invariant
            i <= 6,
            forall|k: int|
                0 <= k < i ==> !contains(message@, (#[trigger] CONFLICT_KEYWORDS@[k])@),
        decreases 6 - i,
    {
        let word = CONFLICT_KEYWORDS[i];
        assert(word@ == CONFLICT_KEYWORDS@[i as int]@);
        if contains_text(message, &chars_of(word)) {
            return true;
        }
        i += 1;
    }
    false
}

/// The name in front of a cookie's value.
fn cookie_name(cookie: &str) -> (r: String)
    ensures
        r@ == cookie@.take(first_stop(cookie@, 0, at_char('='))),
{
    let chars = chars_of(cookie);
    let end = scan_to_char(&chars, 0, '=');
    let name = &chars[0..end];
    assert(name@ == cookie@.take(end as int));
    text_of(name)
}

impl Auth {
    /// Fetching the login page comes next.
    fn fetch_next(&self, url: String, hop: u8) -> (r: LoginNext)
        ensures
            r@ == login_fetch(self@, url@, hop as int),
    {
        let call = self.page_call(&url);
        LoginNext::Send { stage: LoginStage::Fetching { url, hop }, wait_secs: 0, call }
    }

    /// Begins a login.
    pub fn login_start(&self, targets: &[(String, String)], username: &str) -> (r: LoginStep)
        requires
            targets@.len() > 0,
        ensures
            r@ == login_first(self@, pairs(targets@), username@),
    {
        let source = match &self.client.source {
            Some(ip) => ip.text(),
            None => "系统默认路由".to_owned(),
        };
        let mut lines = new_lines();
        let who = join4("=== 开始认证: 账号=", username, " 设备=", self.device_label());
        note(&mut lines, join4(&who, " 源地址=", &source, " ==="));
        note(&mut lines, join2("本次 UA: ", &self.ua));
        LoginStep { lines, next: probe_next(targets, 0) }
    }

    /// Goes on after a probe.
    fn login_probed(&mut self, targets: &[(String, String)], index: usize, reply: &Reply) -> (r:
        LoginStep)
        requires
            index < targets@.len(),
        ensures
            r@ == after_probe(old(self)@, pairs(targets@), index as int, reply_view(*reply)),
            final(self)@ == (AuthView {
                discovered_base: base_after_reply(
                    old(self)@,
                    pairs(targets@),
                    StageView::Probing { index: index as int },
                    reply_view(*reply),
                ),
                ..old(self)@
            }),
            final(self).client == old(self).client,
    {
        let (host, path) = &targets[index];
        assert(pairs(targets@)[index as int] == pair_view(targets@[index as int]));
        let mut lines = new_lines();
        match self.probe_one(host, reply) {
            ProbeState::Online => {
                note(&mut lines, join4("探测 ", host, path, " -> 已放行, 本机已在线"));
                LoginStep {
                    lines,
                    next: LoginNext::Done {
                        ok: true,
                        code: LoginCode::Already,
                        detail: "已在线".to_owned(),
                    },
                }
            },
            ProbeState::Captive(url) => {
                note(&mut lines, "第 1 步完成: 未认证, 已取得会话绑定参数".to_owned());
                note(&mut lines, join2("  Location = ", &url));
                self.discovered_base = Some(url_base(&url));
                LoginStep { lines, next: self.fetch_next(url, 0) }
            },
            _ => {
                if index < targets.len() - 1 {
                    return LoginStep { lines, next: probe_next(targets, index + 1) };
                }
                match &self.portal_url {
                    Some(p) => {
                        note(
                            &mut lines,
                            join2("探测不到劫持响应, 改用配置的门户地址: ", p),
                        );
                        let next = self.fetch_next(p.as_str().to_owned(), 0);
                        LoginStep { lines, next }
                    },
                    None => {
                        note(
                            &mut lines,
                            "!! 探测不到门户劫持响应, 且未配置门户地址".to_owned(),
                        );
                        note(
                            &mut lines,
                            "   手动获取办法: 浏览器打开任意 http 网站(如 http://www.msftconnecttest.com/connecttest.txt),".to_owned(),
                        );
                        note(
                            &mut lines,
                            "   地址栏会跳到校园网认证页 — 把那个地址整条复制到「门户地址」框里再试。".to_owned(),
                        );
                        LoginStep {
                            lines,
                            next: LoginNext::Done {
                                ok: false,
                                code: LoginCode::NoPortal,
                                detail: "未探测到门户, 请手动填写门户地址(浏览器打开任意 http 网站, 复制跳转后的地址)".to_owned(),
                            },
                        }
                    },
                }
            },
        }
    }

    /// The log lines on a login page.
    fn page_remarks(&self, html: &str, fields: &Vec<(String, String)>, cookie: &str) -> (r: Vec<
        String,
    >)
        requires
            pairs(fields@) == form_fields(html@),
        ensures
            texts(r@) == page_notes(self@, html@, cookie@),
    {
        let mut lines = new_lines();
        if cookie.is_empty() {
            note(&mut lines, "第 2 步完成: 门户未下发 Cookie, 继续尝试".to_owned());
        } else {
            note(
                &mut lines,
                join3("第 2 步完成: 已取得会话 Cookie (", &cookie_name(cookie), ")"),
            );
        }
        let default_host = BASE_FORM_DEFAULTS[2].1;
        assert(default_host@ == BASE_FORM_DEFAULTS@[2].1@);
        note(
            &mut lines,
            join2("  登录页字段: hostIp=", &value_or(fields, "hostIp", default_host)),
        );
        let own = extract_err_message(html);
        if !own.as_str().is_empty() {
            note(&mut lines, join2("  注意: 登录页自带提示信息: ", &own));
        }
        let chars = chars_of(html);
        let for_pc = contains_text(&chars, &chars_of("uploads/pc/"));
        let label = if contains_text(&chars, &chars_of("uploads/mobile/")) {
            "手机模板"
        } else if for_pc {
            "电脑模板"
        } else {
            "未知模板"
        };
        note(
            &mut lines,
            join5(
                "  门户按本次 UA 下发: ",
                label,
                " (页面 templatetype=",
                &value_or(fields, "templatetype", "?"),
                ")",
            ),
        );
        if self.is_mobile && for_pc {
            note(
                &mut lines,
                "  !! 警告: 手机端 UA 却被门户下发电脑模板, 设备类型可能被判为电脑".to_owned(),
            );
        }
        lines
    }

    /// Fills in and submits the form of a login page.
    fn submit(&self, url: &str, html: &str, cookie: &str, username: &str, password: &str) -> (r:
        LoginStep)
        ensures
            r@ == (StepView {
                lines: form_notes(
                    page_notes(self@, html@, cookie@),
                    self@,
                    html@,
                    username@,
                    password@,
                ),
                next: NextView::Send {
                    stage: StageView::Submitting,
                    wait_secs: 0,
                    call: submit_call_of(self@, url@, html@, cookie@, username@, password@),
                },
            }),
    {
        let fields = parse_form_fields(html);
        let mut lines = self.page_remarks(html, &fields, cookie);
        let template = if self.is_mobile {
            "2"
        } else {
            "1"
        };
        note(
            &mut lines,
            join4("  认证身份: 设备=", self.device_label(), " templatetype=", template),
        );
        let (account, secret) = detect_credential_fields(&parse_form_inputs(html));
        let user_field = match account {
            Some(name) => name,
            None => "userId".to_owned(),
        };
        let pass_field = match secret {
            Some(name) => name,
            None => "passwd".to_owned(),
        };
        note(
            &mut lines,
            join4("  表单身份字段: 账号=", &user_field, " 密码=", &pass_field),
        );
        let form = login_form(
            fields,
            self.is_mobile,
            &user_field,
            &pass_field,
            username,
            password,
        );
        note(&mut lines, join2("  表单明细: ", &form_summary(&form, &pass_field)));
        let mut headers = headers_of_browser(&self.ua);
        add_header(&mut headers, "Content-Type", "application/x-www-form-urlencoded");
        add_header(&mut headers, "Referer", url);
        add_header(&mut headers, "Cookie", cookie);
        let call = Call {
            method: "POST".to_owned(),
            url: url.to_owned(),
            headers,
            body: Some(form_body(&form)),
        };
        LoginStep {
            lines,
            next: LoginNext::Send { stage: LoginStage::Submitting, wait_secs: 0, call },
        }
    }

    /// Goes on after a request for the login page.
    fn login_fetched(
        &self,
        username: &str,
        password: &str,
        url: &str,
        hop: u8,
        reply: &Reply,
    ) -> (r: LoginStep)
        requires
            reply matches Ok(resp) ==> fits_decoder(resp.body@.len()),
        ensures
            r@ == after_fetch(
                self@,
                username@,
                password@,
                url@,
                hop as int,
                reply_view(*reply),
            ),
    {
        let (mut lines, page) = self.fetch_login_page(url, hop, reply);
        match page {
            PageStep::Follow(next) => LoginStep { lines, next: self.fetch_next(next, hop + 1) },
            PageStep::Failed(e) => {
                note(&mut lines, join2("!! 获取登录页失败: ", &e));
                LoginStep {
                    lines,
                    next: LoginNext::Done {
                        ok: false,
                        code: LoginCode::Unreachable,
                        detail: join2("门户连接失败: ", &e),
                    },
                }
            },
            PageStep::Page { html, cookie } => self.submit(url, &html, &cookie, username, password),
        }
    }

    /// Goes on after the form was submitted.
    fn login_submitted(&self, targets: &[(String, String)], reply: &Reply) -> (r: LoginStep)
        requires
            targets@.len() > 0,
            reply matches Ok(resp) ==> fits_decoder(resp.body@.len()),
        ensures
            r@ == after_submit(pairs(targets@), reply_view(*reply)),
    {
        let mut lines = new_lines();
        let resp = match reply {
            Ok(resp) => resp,
            Err(e) => {
                note(&mut lines, join2("!! 提交认证请求失败: ", e));
                return LoginStep {
                    lines,
                    next: LoginNext::Done {
                        ok: false,
                        code: LoginCode::Failure,
                        detail: join2("POST 失败: ", e),
                    },
                };
            },
        };
        let status = join3(
            "第 3 步完成: 认证请求已提交 (HTTP ",
            &dec_text(resp.status as u64),
            ", ",
        );
        note(&mut lines, join3(&status, &dec_text(resp.body.len() as u64), " 字节)"));
        let message = extract_err_message(&decode_body(&resp.body));
        if message.as_str().is_empty() {
            note(&mut lines, "  门户未返回错误消息, 视为受理".to_owned());
        } else {
            note(&mut lines, join2("  门户返回消息: ", &message));
            let chars = chars_of(&message);
            if tells_bad_password(&chars) {
                return LoginStep {
                    lines,
                    next: LoginNext::Done {
                        ok: false,
                        code: LoginCode::BadPassword,
                        detail: message,
                    },
                };
            }
            if tells_conflict(&chars) {
                note(&mut lines, "!! 检测到槽位冲突(已在线/终端数超限类)".to_owned());
                let ghost said = texts(lines@);
                let mut more = self.print_manual_offline_advice();
                let ghost (x, y) = (lines@, more@);
                lines.append(&mut more);
                assert(texts(lines@) == said + advice()) by {
                    assert(texts(x + y) == texts(x) + texts(y));
                }
                return LoginStep {
                    lines,
                    next: LoginNext::Done { ok: false, code: LoginCode::Conflict, detail: message },
                };
            }
        }
        note(&mut lines, line_of_recheck(1));
        LoginStep { lines, next: recheck_next(targets, 1, message) }
    }

    /// Goes on after a recheck.
    fn login_rechecked(
        &self,
        targets: &[(String, String)],
        attempt: u8,
        message: String,
        reply: &Reply,
    ) -> (r: LoginStep)
        requires
            targets@.len() > 0,
        ensures
            r@ == after_recheck(pairs(targets@), attempt as int, message@, reply_view(*reply)),
    {
        let (host, _) = &targets[0];
        assert(pairs(targets@)[0] == pair_view(targets@[0]));
        let mut lines = new_lines();
        let still = match self.probe_one(host, reply) {
            ProbeState::Online => {
                note(&mut lines, "复核: 200/204 无重定向 -> 已放行".to_owned());
                note(&mut lines, "=== 认证成功, 已上线! ===".to_owned());
                return LoginStep {
                    lines,
                    next: LoginNext::Done { ok: true, code: LoginCode::Success, detail: message },
                };
            },
            ProbeState::Captive(_) => " 次: 仍被劫持, 继续等待...",
            _ => " 次: 无结论, 继续等待...",
        };
        note(&mut lines, join3("复核第 ", &dec_text(attempt as u64), still));
        if attempt < 2 {
            note(&mut lines, line_of_recheck(attempt + 1));
            return LoginStep { lines, next: recheck_next(targets, attempt + 1, message) };
        }
        note(&mut lines, "=== 认证失败: 复核仍未放行 ===".to_owned());
        let detail = if message.as_str().is_empty() {
            "复核未放行".to_owned()
        } else {
            note(&mut lines, join2("  最后的门户消息: ", &message));
            message
        };
        LoginStep {
            lines,
            next: LoginNext::Done { ok: false, code: LoginCode::Failure, detail },
        }
    }

    /// Goes on with a login, from what the request of `stage` came to. A probe that shows
    /// the portal also tells its base, which is kept.
    pub fn login(
        &mut self,
        targets: &[(String, String)],
        username: &str,
        password: &str,
        stage: LoginStage,
        reply: &Reply,
    ) -> (r: LoginStep)
        requires
            targets@.len() > 0,
            stage matches LoginStage::Probing { index } ==> index < targets@.len(),
            reply matches Ok(resp) ==> fits_decoder(resp.body@.len()),
        ensures
            r@ == login_after_reply(
                old(self)@,
                pairs(targets@),
                username@,
                password@,
                stage@,
                reply_view(*reply),
            ),
            final(self)@ == (AuthView {
                discovered_base: base_after_reply(
                    old(self)@,
                    pairs(targets@),
                    stage@,
                    reply_view(*reply),
                ),
                ..old(self)@
            }),
            final(self).client == old(self).client,
    {
        match stage {
            LoginStage::Probing { index } => self.login_probed(targets, index, reply),
            LoginStage::Fetching { url, hop } => self.login_fetched(
                username,
                password,
                &url,
                hop,
                reply,
            ),
            LoginStage::Submitting => self.login_submitted(targets, reply),
            LoginStage::Rechecking { attempt, message } => self.login_rechecked(
                targets,
                attempt,
                message,
                reply,
            ),
        }
    }
}

// ---------------------------------------------------------------------------
// Laws
// ---------------------------------------------------------------------------

/// Where a login stands after a number of replies.
pub open spec fn login_after(
    a: AuthView,
    targets: TargetsView,
    username: Seq<char>,
    password: Seq<char>,
    replies: Seq<ReplyView>,
) -> StepView
    decreases replies.len(),
{
    if replies.len() == 0 {
        login_first(a, targets, username)
    } else {
        let before = login_after(a, targets, username, password, replies.drop_last());
        match before.next {
            NextView::Send { stage, .. } => login_after_reply(
                a,
                targets,
                username,
                password,
                stage,
                replies.last(),
            ),
            NextView::Done { .. } => before,
        }
    }
}

/// How many requests are left at most.
pub open spec fn login_rank(targets: TargetsView, next: NextView) -> int {
    match next {
        NextView::Send { stage, .. } => match stage {
            StageView::Probing { index } => targets.len() - index + 6,
            StageView::Fetching { hop, .. } => 6 - hop,
            StageView::Submitting => 3,
            StageView::Rechecking { attempt, .. } => 3 - attempt,
        },
        NextView::Done { .. } => 0,
    }
}

/// A step of a login over targets: a target that there is, two redirects at most, and a
/// first or second recheck.
pub open spec fn login_in_range(targets: TargetsView, next: NextView) -> bool {
    next matches NextView::Send { stage, .. } ==> match stage {
        StageView::Probing { index } => 0 <= index < targets.len(),
        StageView::Fetching { hop, .. } => 0 <= hop <= 2,
        StageView::Submitting => true,
        StageView::Rechecking { attempt, .. } => 1 <= attempt <= 2,
    }
}

/// Each reply brings the end of a login nearer.
proof fn lemma_login_rank_falls(
    a: AuthView,
    targets: TargetsView,
    username: Seq<char>,
    password: Seq<char>,
    before: NextView,
    reply: ReplyView,
)
    requires
        targets.len() > 0,
        login_in_range(targets, before),
        before is Send,
    ensures
        ({
            let after = login_after_reply(
                a,
                targets,
                username,
                password,
                before->stage,
                reply,
            ).next;
            &&& login_in_range(targets, after)
            &&& login_rank(targets, after) < login_rank(targets, before)
            &&& login_rank(targets, after) >= 0
        }),
{
}

/// A login stays in range, and has come at least as far as there were replies.
proof fn lemma_login_rank(
    a: AuthView,
    targets: TargetsView,
    username: Seq<char>,
    password: Seq<char>,
    replies: Seq<ReplyView>,
)
    requires
        targets.len() > 0,
    ensures
        login_in_range(targets, login_after(a, targets, username, password, replies).next),
        login_after(a, targets, username, password, replies).next is Send ==> login_rank(
            targets,
            login_after(a, targets, username, password, replies).next,
        ) <= targets.len() + 6 - replies.len(),
    decreases replies.len(),
{
    if replies.len() > 0 {
        lemma_login_rank(a, targets, username, password, replies.drop_last());
        let before = login_after(a, targets, username, password, replies.drop_last()).next;
        if before is Send {
            lemma_login_rank_falls(a, targets, username, password, before, replies.last());
        }
    }
}

/// A login that goes on has come further with each reply.
proof fn lemma_login_goes_on(
    a: AuthView,
    targets: TargetsView,
    username: Seq<char>,
    password: Seq<char>,
    replies: Seq<ReplyView>,
    k: int,
)
    requires
        targets.len() > 0,
        0 <= k < replies.len(),
        login_after(a, targets, username, password, replies).next is Send,
    ensures
        login_after(a, targets, username, password, replies.take(k)).next is Send,
        login_rank(targets, login_after(a, targets, username, password, replies).next)
            < login_rank(
            targets,
            login_after(a, targets, username, password, replies.take(k)).next,
        ),
    decreases replies.len(),
{
    let shorter = replies.drop_last();
    let before = login_after(a, targets, username, password, shorter).next;
    lemma_login_rank(a, targets, username, password, shorter);
    assert(before is Send);
    lemma_login_rank_falls(a, targets, username, password, before, replies.last());
    if k < shorter.len() {
        lemma_login_goes_on(a, targets, username, password, shorter, k);
        assert(shorter.take(k) == replies.take(k));
    } else {
        assert(replies.take(k) == shorter);
    }
}

/// A login ends: after as many replies as there are targets, and six more, it is over.
pub proof fn law_login_ends(
    a: AuthView,
    targets: TargetsView,
    username: Seq<char>,
    password: Seq<char>,
    replies: Seq<ReplyView>,
)
    requires
        targets.len() > 0,
        replies.len() >= targets.len() + 6,
    ensures
        login_after(a, targets, username, password, replies).next is Done,
{
    lemma_login_rank(a, targets, username, password, replies);
}

/// The form is about to be submitted.
pub open spec fn submits(next: NextView) -> bool {
    next matches NextView::Send { call, .. } && call.method == "POST"@
}

/// The form is submitted exactly at the stage for it.
proof fn lemma_submits(
    a: AuthView,
    targets: TargetsView,
    username: Seq<char>,
    password: Seq<char>,
    replies: Seq<ReplyView>,
)
    ensures
        ({
            let next = login_after(a, targets, username, password, replies).next;
            submits(next) == (next is Send && next->stage is Submitting)
        }),
    decreases replies.len(),
{
    reveal_strlit("GET");
    reveal_strlit("POST");
    assert("GET"@.len() != "POST"@.len());
    if replies.len() > 0 {
        lemma_submits(a, targets, username, password, replies.drop_last());
    }
}

/// A login submits the form once at most, whatever the replies are.
pub proof fn law_form_is_submitted_once(
    a: AuthView,
    targets: TargetsView,
    username: Seq<char>,
    password: Seq<char>,
    replies: Seq<ReplyView>,
    k: int,
)
    requires
        targets.len() > 0,
        0 <= k < replies.len(),
        submits(login_after(a, targets, username, password, replies).next),
    ensures
        !submits(login_after(a, targets, username, password, replies.take(k)).next),
{
    lemma_submits(a, targets, username, password, replies);
    lemma_submits(a, targets, username, password, replies.take(k));
    lemma_login_goes_on(a, targets, username, password, replies, k);
}

/// A login over an open network submits nothing: where a probe finds it open, no form has
/// been submitted.
pub proof fn law_open_network_needs_no_login(
    a: AuthView,
    targets: TargetsView,
    username: Seq<char>,
    password: Seq<char>,
    replies: Seq<ReplyView>,
    k: int,
)
    requires
        targets.len() > 0,
        0 <= k <= replies.len(),
        login_after(a, targets, username, password, replies).next matches NextView::Done {
            code,
            ..
        } && code == LoginCode::Already,
    ensures
        !submits(login_after(a, targets, username, password, replies.take(k)).next),
    decreases replies.len(),
{
    let shorter = replies.drop_last();
    assert(replies.len() > 0);
    if k == replies.len() {
        assert(replies.take(k) == replies);
    } else {
        assert(replies.take(k) == shorter.take(k));
        let before = login_after(a, targets, username, password, shorter).next;
        if before is Done {
            law_open_network_needs_no_login(a, targets, username, password, shorter, k);
        } else {
            assert(before->stage is Probing);
            if k == shorter.len() {
                assert(shorter.take(k) == shorter);
                lemma_submits(a, targets, username, password, shorter);
            } else {
                lemma_login_goes_on(a, targets, username, password, shorter, k);
                lemma_login_rank(a, targets, username, password, shorter);
                lemma_submits(a, targets, username, password, shorter.take(k));
            }
        }
    }
}

/// Success is what a probe shows, never what the portal says: a login that ends well ends
/// with a response from a target, without a redirect and with status 200 or 204.
pub proof fn law_success_is_an_open_network(
    a: AuthView,
    targets: TargetsView,
    username: Seq<char>,
    password: Seq<char>,
    stage: StageView,
    reply: ReplyView,
)
    requires
        login_after_reply(a, targets, username, password, stage, reply).next matches NextView::Done {
            ok,
            ..
        } && ok,
    ensures
        stage is Probing || stage is Rechecking,
        probe_state(
            targets[match stage {
                StageView::Probing { index } => index,
                _ => 0,
            }].0,
            reply,
        ) is Online,
{
}

/// An account in use is left alone: a message that says so ends the login, and nothing more
/// is sent.
pub proof fn law_conflict_ends_the_login(
    a: AuthView,
    targets: TargetsView,
    username: Seq<char>,
    password: Seq<char>,
    status: int,
    headers: Seq<(Seq<char>, Seq<char>)>,
    body: Seq<u8>,
)
    requires
        says_conflict(err_message(body_text(body))),
        err_message(body_text(body)).len() > 0,
    ensures
        login_after_reply(
            a,
            targets,
            username,
            password,
            StageView::Submitting,
            Ok(ResponseView { status, headers, body }),
        ).next matches NextView::Done { ok, code, detail } && !ok && detail == err_message(
            body_text(body),
        ) && (code == LoginCode::Conflict || code == LoginCode::BadPassword),
{
}

/// A login page is answered where it was read: the form goes to the address of the page,
/// which is also its referrer, with the cookie of the page and the user agent of the
/// device.
pub proof fn law_form_answers_its_page(
    a: AuthView,
    targets: TargetsView,
    username: Seq<char>,
    password: Seq<char>,
    url: Seq<char>,
    hop: int,
    reply: ReplyView,
)
    requires
        submits(
            login_after_reply(
                a,
                targets,
                username,
                password,
                StageView::Fetching { url, hop },
                reply,
            ).next,
        ),
    ensures
        reply is Ok,
        ({
            let html = body_text(reply->Ok_0.body);
            let cookie = cookie_of(reply->Ok_0.headers);
            login_after_reply(
                a,
                targets,
                username,
                password,
                StageView::Fetching { url, hop },
                reply,
            ).next matches NextView::Send { stage, call, .. } && stage is Submitting && call.url
                == url && call.headers.contains(("Referer"@, url)) && call.headers.contains(
                ("Cookie"@, cookie),
            ) && call.headers.contains(("User-Agent"@, a.ua)) && call.body == Some(
                form_body_of(page_form(a, html, username, password)),
            )
        }),
{
    reveal_strlit("GET");
    reveal_strlit("POST");
    assert("GET"@.len() != "POST"@.len());
    let next = login_after_reply(
        a,
        targets,
        username,
        password,
        StageView::Fetching { url, hop },
        reply,
    ).next;
    let sent = next->call.headers;
    assert(sent[0] == ("User-Agent"@, a.ua));
    assert(sent[4] == ("Referer"@, url));
    assert(sent[5] == ("Cookie"@, cookie_of(reply->Ok_0.headers)));
}

/// The log of a login holds nothing of the password: with another password, the same
/// replies leave the same lines.
pub proof fn law_log_hides_the_password(
    a: AuthView,
    targets: TargetsView,
    username: Seq<char>,
    password: Seq<char>,
    other: Seq<char>,
    replies: Seq<ReplyView>,
)
    ensures
        ({
            let one = login_after(a, targets, username, password, replies);
            let two = login_after(a, targets, username, other, replies);
            &&& one.lines == two.lines
            &&& match (one.next, two.next) {
                (NextView::Send { stage: s1, .. }, NextView::Send { stage: s2, .. }) => s1 == s2,
                (NextView::Done { .. }, NextView::Done { .. }) => one.next == two.next,
                _ => false,
            }
        }),
    decreases replies.len(),
{
    if replies.len() > 0 {
        law_log_hides_the_password(a, targets, username, password, other, replies.drop_last());
        let before = login_after(a, targets, username, password, replies.drop_last()).next;
        if let NextView::Send { stage: StageView::Fetching { url, hop }, .. } = before {
            if let PageView::Page { html, .. } = page_step(url, hop, replies.last()) {
                law_summary_hides_the_password(
                    form_fields(html),
                    a.is_mobile,
                    user_field_of(html),
                    pass_field_of(html),
                    username,
                    password,
                    other,
                );
            }
        }
    }
}

/// A header with a name of another length does not name the user agent.
proof fn lemma_no_agent(headers: Seq<(Seq<char>, Seq<char>)>, h: (Seq<char>, Seq<char>))
    requires
        h.0.len() != 10,
    ensures
        agent_count(headers.push(h)) == agent_count(headers),
{
    reveal(Seq::filter);
    reveal_strlit("user-agent");
    assert(lower(h.0).len() == h.0.len());
    assert(lower("user-agent"@).len() == 10);
    assert(!agent_header()(h));
    assert(headers.push(h).drop_last() == headers);
}

/// The headers of a browser name the user agent once, and first.
proof fn lemma_browser_agent(ua: Seq<char>)
    ensures
        agent_count(browser_headers(ua)) == 1,
        browser_headers(ua)[0] == ("User-Agent"@, ua),
        agent_header()(("User-Agent"@, ua)),
{
    reveal(Seq::filter);
    reveal_strlit("Accept");
    reveal_strlit("Accept-Language");
    reveal_strlit("User-Agent");
    reveal_strlit("user-agent");
    let none = Seq::<(Seq<char>, Seq<char>)>::empty();
    let agent = ("User-Agent"@, ua);
    let accept = ("Accept"@, "text/html,application/xhtml+xml,application/xml;q=0.9,*/*;q=0.8"@);
    assert(lower("User-Agent"@) =~= lower("user-agent"@));
    assert(agent_header()(agent));
    assert(none.push(agent).drop_last() == none);
    assert(agent_count(none.push(agent)) == 1);
    lemma_no_agent(none.push(agent), accept);
    lemma_no_agent(none.push(agent).push(accept), ("Accept-Language"@, "zh-CN,zh;q=0.9"@));
}

/// The portal sees one user agent: every request of a login names it once, and those for
/// the login page and with the form name that of the device.
pub proof fn law_one_agent_in_every_request(
    a: AuthView,
    targets: TargetsView,
    username: Seq<char>,
    password: Seq<char>,
    replies: Seq<ReplyView>,
)
    ensures
        login_after(a, targets, username, password, replies).next matches NextView::Send {
            stage,
            call,
            ..
        } ==> {
            &&& agent_count(sent_headers(call.headers)) == 1
            &&& stage is Fetching || stage is Submitting ==> sent_headers(call.headers)[0] == (
                "User-Agent"@,
                a.ua,
            )
        },
    decreases replies.len(),
{
    if replies.len() > 0 {
        law_one_agent_in_every_request(a, targets, username, password, replies.drop_last());
    }
    let next = login_after(a, targets, username, password, replies).next;
    if let NextView::Send { stage, call, .. } = next {
        reveal_strlit("Accept");
        reveal_strlit("Content-Type");
        reveal_strlit("Referer");
        reveal_strlit("Cookie");
        lemma_browser_agent(a.ua);
        let none = Seq::<(Seq<char>, Seq<char>)>::empty();
        reveal(Seq::filter);
        lemma_no_agent(none, ("Accept"@, "*/*"@));
        let more = browser_headers(a.ua);
        let typed = more.push(("Content-Type"@, "application/x-www-form-urlencoded"@));
        lemma_no_agent(more, ("Content-Type"@, "application/x-www-form-urlencoded"@));
        if stage is Submitting {
            let referred = typed.push(("Referer"@, call.url));
            let cookie = call.headers.last();
            lemma_no_agent(typed, ("Referer"@, call.url));
            lemma_submit_headers(a, targets, username, password, replies);
            lemma_no_agent(referred, cookie);
            assert(call.headers == referred.push(cookie));
        }
        if !(call.headers == none.push(("Accept"@, "*/*"@))) {
            lemma_first_where(call.headers, agent_header(), 0);
            assert(call.headers[0] == ("User-Agent"@, a.ua));
        }
        law_one_user_agent(call.headers);
    }
}

/// The headers with which the form is submitted.
proof fn lemma_submit_headers(
    a: AuthView,
    targets: TargetsView,
    username: Seq<char>,
    password: Seq<char>,
    replies: Seq<ReplyView>,
)
    ensures
        login_after(a, targets, username, password, replies).next matches NextView::Send {
            stage: StageView::Submitting,
            call,
            ..
        } ==> exists|cookie: Seq<char>|
            call.headers == #[trigger] browser_headers(a.ua).push(
                ("Content-Type"@, "application/x-www-form-urlencoded"@),
            ).push(("Referer"@, call.url)).push(("Cookie"@, cookie)),
{
    if replies.len() > 0 {
        let before = login_after(a, targets, username, password, replies.drop_last()).next;
        if let NextView::Send { stage: StageView::Fetching { url, hop }, .. } = before {
            if let PageView::Page { html, cookie } = page_step(url, hop, replies.last()) {
                let next = login_after(a, targets, username, password, replies).next;
                assert(next->call.headers == browser_headers(a.ua).push(
                    ("Content-Type"@, "application/x-www-form-urlencoded"@),
                ).push(("Referer"@, next->call.url)).push(("Cookie"@, cookie)));
            }
        }
    }
}

} // verus!
