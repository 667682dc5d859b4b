//! Two errands at the self-service, from the captcha to the end: listing the devices that
//! are online under an account, and taking this device offline. Each step takes what the
//! last action came to, and says what to print and what to do next.
use vstd::prelude::*;
use crate::common::fits_decoder;
use crate::http::{reply_view, Call, CallView, Reply, ReplyView};
use crate::json::json_string_at;
use crate::selfsvc::{
    captcha_in, cookie_after, find_own_row, kick_by_mac_fields, kick_result,
    law_only_the_own_row_is_found, list_fields, login_fields, no_fields, own_row, rows_in,
    rows_view, service_call, service_text, slot_name, slot_of, text_granted, DeviceRow, RowView,
    Spa,
};
use crate::text::{
    chars_of, dec, dec_text, join2, join3, join4, join5, opt_text, push_text, trim, trim_text,
};

verus! {

// ---------------------------------------------------------------------------
// Stages
// ---------------------------------------------------------------------------

/// A line for the log, for the output or for the error output.
#[derive(Debug)]
pub enum Line {
    Log(String),
    Out(String),
    Error(String),
}

/// A line, as plain values.
#[verifier::ext_equal]
pub enum LineView {
    Log(Seq<char>),
    Out(Seq<char>),
    Error(Seq<char>),
}

impl View for Line {
    type V = LineView;

    open spec fn view(&self) -> LineView {
        match self {
            Line::Log(s) => LineView::Log(s@),
            Line::Out(s) => LineView::Out(s@),
            Line::Error(s) => LineView::Error(s@),
        }
    }
}

/// The plain values of lines.
pub open spec fn lines_view(s: Seq<Line>) -> Seq<LineView> {
    s.map_values(|l: Line| l@)
}

/// How far an errand has come: which request was sent last.
#[derive(Debug)]
pub enum ErrandStage {
    /// A captcha was asked for.
    Captcha,
    /// The login to the self-service was sent.
    Login,
    /// The list of devices was asked for.
    Listing,
    /// This device, with its address, was told to go offline.
    Kicking { ip: String },
    /// The session was ended.
    Leaving,
}

/// How far an errand has come, as plain values.
#[verifier::ext_equal]
pub enum ErrandStageView {
    Captcha,
    Login,
    Listing,
    Kicking { ip: Seq<char> },
    Leaving,
}

impl View for ErrandStage {
    type V = ErrandStageView;

    open spec fn view(&self) -> ErrandStageView {
        match self {
            ErrandStage::Captcha => ErrandStageView::Captcha,
            ErrandStage::Login => ErrandStageView::Login,
            ErrandStage::Listing => ErrandStageView::Listing,
            ErrandStage::Kicking { ip } => ErrandStageView::Kicking { ip: ip@ },
            ErrandStage::Leaving => ErrandStageView::Leaving,
        }
    }
}

/// What comes next in an errand.
#[derive(Debug)]
pub enum ErrandNext {
    /// A request to make.
    Send { stage: ErrandStage, call: Call },
    /// A captcha to show: the image, and what to say of the session. The line that is
    /// typed goes to `on_code`.
    AskCode { png: Vec<u8>, session: String },
    /// A wait, and then a connectivity test. Its verdict goes to `on_verdict`.
    Test { wait_secs: u64 },
    /// The errand is over.
    Done { exit: i32 },
}

/// What comes next in an errand, as plain values.
#[verifier::ext_equal]
pub enum ErrandNextView {
    Send { stage: ErrandStageView, call: CallView },
    AskCode { png: Seq<u8>, session: Seq<char> },
    Test { wait_secs: int },
    Done { exit: int },
}

impl View for ErrandNext {
    type V = ErrandNextView;

    open spec fn view(&self) -> ErrandNextView {
        match self {
            ErrandNext::Send { stage, call } => ErrandNextView::Send { stage: stage@, call: call@ },
            ErrandNext::AskCode { png, session } => ErrandNextView::AskCode {
                png: png@,
                session: session@,
            },
            ErrandNext::Test { wait_secs } => ErrandNextView::Test { wait_secs: *wait_secs as int },
            ErrandNext::Done { exit } => ErrandNextView::Done { exit: *exit as int },
        }
    }
}

/// A step of an errand: what to print, and what comes next.
#[derive(Debug)]
pub struct ErrandStep {
    pub lines: Vec<Line>,
    pub next: ErrandNext,
}

/// A step of an errand, as plain values.
#[verifier::ext_equal]
pub struct ErrandStepView {
    pub lines: Seq<LineView>,
    pub next: ErrandNextView,
}

impl View for ErrandStep {
    type V = ErrandStepView;

    open spec fn view(&self) -> ErrandStepView {
        ErrandStepView { lines: lines_view(self.lines@), next: self.next@ }
    }
}

/// An errand at the self-service.
#[derive(Debug)]
pub struct Errand {
    pub spa: Spa,
    pub username: String,
    pub password: String,
    /// Whether to take this device offline, or only to list the devices.
    pub take_offline: bool,
    /// The hardware address of this device, digits alone; empty where it is not known.
    pub mac: String,
    /// The address of this device; empty where it is not known.
    pub ip: String,
}

/// An errand at the self-service, as plain values.
#[verifier::ext_equal]
pub struct ErrandView {
    pub cookie: Seq<char>,
    pub username: Seq<char>,
    pub password: Seq<char>,
    pub take_offline: bool,
    pub mac: Seq<char>,
    pub ip: Seq<char>,
}

impl View for Errand {
    type V = ErrandView;

    open spec fn view(&self) -> ErrandView {
        ErrandView {
            cookie: self.spa.cookie@,
            username: self.username@,
            password: self.password@,
            take_offline: self.take_offline,
            mac: self.mac@,
            ip: self.ip@,
        }
    }
}

// ---------------------------------------------------------------------------
// What each step does
// ---------------------------------------------------------------------------

/// No lines.
pub open spec fn none() -> Seq<LineView> {
    Seq::empty()
}

/// An errand that fails.
pub open spec fn failed(e: Seq<char>) -> ErrandStepView {
    ErrandStepView {
        lines: none().push(LineView::Error("!! "@ + e)),
        next: ErrandNextView::Done { exit: 1 },
    }
}

/// The login to the self-service comes next.
pub open spec fn send_login(e: ErrandView, code: Seq<char>) -> ErrandStepView {
    ErrandStepView {
        lines: none().push(LineView::Log("自助接口: 登录自助系统(login)..."@)),
        next: ErrandNextView::Send {
            stage: ErrandStageView::Login,
            call: service_call(
                e.cookie,
                "self/login.do"@,
                login_fields(e.username, e.password, code),
            ),
        },
    }
}

/// An errand begins with a captcha, unless a session and a code are given; one without the
/// other will not do.
pub open spec fn errand_first(
    e: ErrandView,
    session: Option<Seq<char>>,
    code: Option<Seq<char>>,
) -> ErrandStepView {
    match (session, code) {
        (Some(s), Some(c)) => send_login(ErrandView { cookie: s, ..e }, c),
        (None, None) => ErrandStepView {
            lines: none().push(
                LineView::Log("自助接口: 获取验证码会话(tologin)..."@),
            ),
            next: ErrandNextView::Send {
                stage: ErrandStageView::Captcha,
                call: service_call(e.cookie, "self/tologin.do"@, no_fields()),
            },
        },
        _ => failed("--offline-code 与 --offline-session 必须同时提供"@),
    }
}

/// The code that was typed goes to the self-service, if it is long enough for one.
pub open spec fn after_code(e: ErrandView, typed: Seq<char>) -> ErrandStepView {
    if trim(typed).len() < 4 {
        failed("验证码不完整"@)
    } else {
        send_login(e, trim(typed))
    }
}

/// The captcha that came back is shown.
pub open spec fn after_captcha(e: ErrandView, reply: ReplyView) -> ErrandStepView {
    match service_text("self/tologin.do"@, reply) {
        Err(m) => failed(m),
        Ok(text) => match text_granted(text) {
            Err(m) => failed(m),
            Ok(_) => match captcha_in(text) {
                Err(m) => failed(m),
                Ok(png) => ErrandStepView {
                    lines: none(),
                    next: ErrandNextView::AskCode {
                        png,
                        session: "自助会话: "@ + cookie_after(e.cookie, reply)
                            + " (脚本可配合 --offline-session 复用)"@,
                    },
                },
            },
        },
    }
}

/// After the login, the list of devices is asked for.
pub open spec fn after_login(e: ErrandView, reply: ReplyView) -> ErrandStepView {
    match service_text("self/login.do"@, reply) {
        Err(m) => failed(m),
        Ok(text) => match text_granted(text) {
            Err(m) => failed(m),
            Ok(_) => ErrandStepView {
                lines: none().push(
                    LineView::Log("自助接口: 查询在线设备(getonline)..."@),
                ),
                next: ErrandNextView::Send {
                    stage: ErrandStageView::Listing,
                    call: service_call(
                        cookie_after(e.cookie, reply),
                        "self/getonline.do"@,
                        list_fields(e.username),
                    ),
                },
            },
        },
    }
}

/// A device as a line of the list.
pub open spec fn device_words(r: RowView) -> Seq<char> {
    "  IP="@ + r.account_ip + "  槽位="@ + slot_of(r.terminal_type) + "("@ + r.os_info
        + ")  MAC="@ + r.account_mac + "  上线时间="@ + r.online_time
}

/// A device that is not this one, as a line.
pub open spec fn stranger_words(r: RowView) -> Seq<char> {
    "  "@ + r.account_ip + "  ["@ + r.terminal_type + ":"@ + r.os_info + "]  "@ + r.account_mac
}

/// Lines with a line for each device behind them.
pub open spec fn with_devices(lines: Seq<LineView>, rows: Seq<RowView>) -> Seq<LineView>
    decreases rows.len(),
{
    if rows.len() == 0 {
        lines
    } else {
        with_devices(lines, rows.drop_last()).push(LineView::Out(device_words(rows.last())))
    }
}

/// Lines with a line for each device that is not this one behind them.
pub open spec fn with_strangers(lines: Seq<LineView>, rows: Seq<RowView>) -> Seq<LineView>
    decreases rows.len(),
{
    if rows.len() == 0 {
        lines
    } else {
        with_strangers(lines, rows.drop_last()).push(LineView::Out(stranger_words(rows.last())))
    }
}

/// The list of devices is printed.
pub open spec fn devices_listed(e: ErrandView, rows: Seq<RowView>) -> ErrandStepView {
    ErrandStepView {
        lines: if rows.len() == 0 {
            none().push(LineView::Out("当前没有在线会话"@))
        } else {
            with_devices(
                none().push(
                    LineView::Out(
                        "账号 "@ + e.username + " 在线设备 "@ + dec(rows.len()) + " 台:"@,
                    ),
                ),
                rows,
            )
        },
        next: ErrandNextView::Done { exit: 0 },
    }
}

/// This device, and none but it, is told to go offline.
pub open spec fn own_device_kicked(e: ErrandView, rows: Seq<RowView>) -> ErrandStepView {
    if rows.len() == 0 {
        ErrandStepView {
            lines: none().push(LineView::Out("当前没有在线会话(可能本机已下线)"@)),
            next: ErrandNextView::Done { exit: 0 },
        }
    } else {
        match own_row(rows, e.mac, e.ip) {
            None => ErrandStepView {
                lines: with_strangers(
                    none().push(
                        LineView::Out(
                            "在线列表有 "@ + dec(rows.len())
                                + " 台设备, 但没有本机(MAC/IP 均不匹配); 未做任何下线:"@,
                        ),
                    ),
                    rows,
                ).push(LineView::Out("提示: 用 --adapter 指定本机网卡后重试"@)),
                next: ErrandNextView::Done { exit: 3 },
            },
            Some(i) => ErrandStepView {
                lines: none().push(
                    LineView::Log(
                        "自助接口: 按 MAC 下线 "@ + rows[i].account_mac
                            + " (并清除绑定)..."@,
                    ),
                ),
                next: ErrandNextView::Send {
                    stage: ErrandStageView::Kicking { ip: rows[i].account_ip },
                    call: service_call(
                        e.cookie,
                        "self/kickonlineByMac.do"@,
                        kick_by_mac_fields(e.username, rows[i]),
                    ),
                },
            },
        }
    }
}

/// After the list of devices came back.
pub open spec fn after_listing(e: ErrandView, reply: ReplyView) -> ErrandStepView {
    match service_text("self/getonline.do"@, reply) {
        Err(m) => failed(m),
        Ok(text) => match text_granted(text) {
            Err(m) => failed(m),
            Ok(_) => if e.take_offline {
                own_device_kicked(e, rows_in(text))
            } else {
                devices_listed(e, rows_in(text))
            },
        },
    }
}

/// After this device was told to go offline, the session is ended.
pub open spec fn after_kick(e: ErrandView, ip: Seq<char>, reply: ReplyView) -> ErrandStepView {
    match kick_result("self/kickonlineByMac.do"@, reply) {
        Err(m) => failed("下线失败: "@ + m),
        Ok(words) => ErrandStepView {
            lines: none().push(
                LineView::Out("下线结果: "@ + words + " (本机 "@ + ip + ")"@),
            ),
            next: ErrandNextView::Send {
                stage: ErrandStageView::Leaving,
                call: service_call(e.cookie, "self/logout.do"@, no_fields()),
            },
        },
    }
}

/// An errand goes on from what a request came to.
pub open spec fn errand_after_reply(
    e: ErrandView,
    stage: ErrandStageView,
    reply: ReplyView,
) -> ErrandStepView {
    match stage {
        ErrandStageView::Captcha => after_captcha(e, reply),
        ErrandStageView::Login => after_login(e, reply),
        ErrandStageView::Listing => after_listing(e, reply),
        ErrandStageView::Kicking { ip } => after_kick(e, ip, reply),
        ErrandStageView::Leaving => ErrandStepView {
            lines: none(),
            next: ErrandNextView::Test { wait_secs: 3 },
        },
    }
}

/// The cookie of an errand's session after a reply: the captcha sets it once it is granted,
/// the login in any case.
pub open spec fn errand_cookie(
    e: ErrandView,
    stage: ErrandStageView,
    reply: ReplyView,
) -> Seq<char> {
    match stage {
        ErrandStageView::Captcha => match service_text("self/tologin.do"@, reply) {
            Ok(text) => if text_granted(text) is Ok {
                cookie_after(e.cookie, reply)
            } else {
                e.cookie
            },
            Err(_) => e.cookie,
        },
        ErrandStageView::Login => if service_text("self/login.do"@, reply) is Ok {
            cookie_after(e.cookie, reply)
        } else {
            e.cookie
        },
        _ => e.cookie,
    }
}

/// What the connectivity test says of a device that was told to go offline.
pub open spec fn after_verdict(open: Option<bool>) -> ErrandStepView {
    match open {
        Some(false) => ErrandStepView {
            lines: none().push(LineView::Out("复核: 已断网(回到未认证状态)"@)),
            next: ErrandNextView::Done { exit: 0 },
        },
        Some(true) => ErrandStepView {
            lines: none().push(
                LineView::Out("复核: 仍显示在线(?), 请到自助管理界面确认"@),
            ),
            next: ErrandNextView::Done { exit: 1 },
        },
        None => ErrandStepView {
            lines: none().push(LineView::Out("复核: 无结论"@)),
            next: ErrandNextView::Done { exit: 0 },
        },
    }
}

// ---------------------------------------------------------------------------
// The steps
// ---------------------------------------------------------------------------

/// No lines.
fn no_lines() -> (r: Vec<Line>)
    ensures
        lines_view(r@) == none(),
{
    let lines: Vec<Line> = Vec::new();
    assert(lines_view(lines@) == none());
    lines
}

/// Adds a line.
fn say(lines: &mut Vec<Line>, line: Line)
    ensures
        lines_view(final(lines)@) == lines_view(old(lines)@).push(line@),
{
    lines.push(line);
    assert(lines_view(lines@) == lines_view(old(lines)@).push(line@));
}

/// An errand that fails.
fn fail(e: &str) -> (r: ErrandStep)
    ensures
        r@ == failed(e@),
{
    let mut lines = no_lines();
    say(&mut lines, Line::Error(join2("!! ", e)));
    ErrandStep { lines, next: ErrandNext::Done { exit: 1 } }
}

/// A device as a line of the list.
fn words_of_device(r: &DeviceRow) -> (s: String)
    ensures
        s@ == device_words(r@),
{
    let mut out = join4("  IP=", &r.account_ip, "  槽位=", slot_name(&r.terminal_type));
    push_text(&mut out, "(");
    push_text(&mut out, &r.os_info);
    push_text(&mut out, ")  MAC=");
    push_text(&mut out, &r.account_mac);
    push_text(&mut out, "  上线时间=");
    push_text(&mut out, &r.online_time);
    out
}

/// A device that is not this one, as a line.
fn words_of_stranger(r: &DeviceRow) -> (s: String)
    ensures
        s@ == stranger_words(r@),
{
    let mut out = join5("  ", &r.account_ip, "  [", &r.terminal_type, ":");
    push_text(&mut out, &r.os_info);
    push_text(&mut out, "]  ");
    push_text(&mut out, &r.account_mac);
    out
}

/// The request that comes next is read as an account, a password and a code.
pub open spec fn signs_in_with(
    next: ErrandNextView,
    username: Seq<char>,
    password: Seq<char>,
    code: Seq<char>,
) -> bool {
    next matches ErrandNextView::Send { call, .. } && call.body is Some && json_string_at(
        call.body->0,
        "/accountId"@,
    ) == Some(username) && json_string_at(call.body->0, "/password"@) == Some(password)
        && json_string_at(call.body->0, "/verifyCode"@) == Some(code)
}

impl Errand {
    /// The login to the self-service comes next.
    fn login_next(&self, code: &str) -> (r: ErrandStep)
        ensures
            r@ == send_login(self@, code@),
            signs_in_with(r@.next, self.username@, self.password@, code@),
    {
        let (line, call) = self.spa.login_call(&self.username, &self.password, code);
        proof {
            let fields = login_fields(self.username@, self.password@, code@);
            reveal_strlit("/");
            reveal_strlit("accountId");
            reveal_strlit("password");
            reveal_strlit("verifyCode");
            reveal_strlit("/accountId");
            reveal_strlit("/password");
            reveal_strlit("/verifyCode");
            assert("/"@ + "accountId"@ =~= "/accountId"@);
            assert("/"@ + "password"@ =~= "/password"@);
            assert("/"@ + "verifyCode"@ =~= "/verifyCode"@);
            assert(fields[0].1 == self.username@);
            assert(fields[1].1 == self.password@);
            assert(fields[2].1 == code@);
        }
        let mut lines = no_lines();
        say(&mut lines, Line::Log(line));
        ErrandStep { lines, next: ErrandNext::Send { stage: ErrandStage::Login, call } }
    }

    /// Begins an errand, with the session and the code that are given, or with a captcha.
    pub fn start(&mut self, session: Option<String>, code: Option<String>) -> (r: ErrandStep)
        ensures
            r@ == errand_first(old(self)@, opt_text(session), opt_text(code)),
            session is Some && code is Some ==> signs_in_with(
                r@.next,
                old(self).username@,
                old(self).password@,
                code->0@,
            ),
            final(self)@ == (match (session, code) {
                (Some(s), Some(_)) => ErrandView { cookie: s@, ..old(self)@ },
                _ => old(self)@,
            }),
            final(self).spa.client == old(self).spa.client,
    {
        match (session, code) {
            (Some(s), Some(c)) => {
                self.spa.cookie = s;
                self.login_next(&c)
            },
            (None, None) => {
                let (line, call) = self.spa.tologin_call();
                let mut lines = no_lines();
                say(&mut lines, Line::Log(line));
                ErrandStep { lines, next: ErrandNext::Send { stage: ErrandStage::Captcha, call } }
            },
            _ => fail("--offline-code 与 --offline-session 必须同时提供"),
        }
    }

    /// Goes on with the line that was typed for the captcha.
    pub fn on_code(&self, typed: &str) -> (r: ErrandStep)
        ensures
            r@ == after_code(self@, typed@),
            trim(typed@).len() >= 4 ==> signs_in_with(
                r@.next,
                self.username@,
                self.password@,
                trim(typed@),
            ),
    {
        let code = trim_text(typed);
        if chars_of(&code).len() < 4 {
            return fail("验证码不完整");
        }
        self.login_next(&code)
    }

    /// Shows the captcha that came back.
    fn captcha_came(&mut self, reply: &Reply) -> (r: ErrandStep)
        requires
            reply matches Ok(resp) ==> fits_decoder(resp.body@.len()),
        ensures
            r@ == after_captcha(old(self)@, reply_view(*reply)),
            final(self)@ == (ErrandView {
                cookie: errand_cookie(old(self)@, ErrandStageView::Captcha, reply_view(*reply)),
                ..old(self)@
            }),
            final(self).spa.client == old(self).spa.client,
    {
        match self.spa.tologin(reply) {
            Err(e) => fail(&e),
            Ok(captcha) => {
                let session = join3(
                    "自助会话: ",
                    &captcha.cookie,
                    " (脚本可配合 --offline-session 复用)",
                );
                ErrandStep {
                    lines: no_lines(),
                    next: ErrandNext::AskCode { png: captcha.png, session },
                }
            },
        }
    }

    /// Asks for the list of devices once the login is granted.
    fn login_came(&mut self, reply: &Reply) -> (r: ErrandStep)
        requires
            reply matches Ok(resp) ==> fits_decoder(resp.body@.len()),
        ensures
            r@ == after_login(old(self)@, reply_view(*reply)),
            final(self)@ == (ErrandView {
                cookie: errand_cookie(old(self)@, ErrandStageView::Login, reply_view(*reply)),
                ..old(self)@
            }),
            final(self).spa.client == old(self).spa.client,
    {
        if let Err(e) = self.spa.login(reply) {
            return fail(&e);
        }
        let (line, call) = self.spa.getonline_call(&self.username);
        let mut lines = no_lines();
        say(&mut lines, Line::Log(line));
        ErrandStep { lines, next: ErrandNext::Send { stage: ErrandStage::Listing, call } }
    }

    /// Prints the list of devices.
    fn print_devices(&self, rows: &Vec<DeviceRow>) -> (r: ErrandStep)
        ensures
            r@ == devices_listed(self@, rows_view(rows@)),
    {
        let ghost views = rows_view(rows@);
        let mut lines = no_lines();
        if rows.len() == 0 {
            say(&mut lines, Line::Out("当前没有在线会话".to_owned()));
            return ErrandStep { lines, next: ErrandNext::Done { exit: 0 } };
        }
        say(
            &mut lines,
            Line::Out(
                join5(
                    "账号 ",
                    &self.username,
                    " 在线设备 ",
                    &dec_text(rows.len() as u64),
                    " 台:",
                ),
            ),
        );
        let ghost top = lines_view(lines@);
        let mut i: usize = 0;
        assert(views.take(0) == Seq::<RowView>::empty());
        while i < rows.len()
            invariant
                i <= rows@.len(),
                views == rows_view(rows@),
                lines_view(lines@) == with_devices(top, views.take(i as int)),
            decreases rows@.len() - i,
        {
            assert(views.take(i + 1).drop_last() == views.take(i as int));
            assert(views.take(i + 1).last() == rows@[i as int]@);
            say(&mut lines, Line::Out(words_of_device(&rows[i])));
            i += 1;
        }
        assert(views.take(views.len() as int) == views);
        ErrandStep { lines, next: ErrandNext::Done { exit: 0 } }
    }

    /// Tells this device, and none but it, to go offline.
    fn kick_own_device(&self, rows: &Vec<DeviceRow>) -> (r: ErrandStep)
        ensures
            r@ == own_device_kicked(self@, rows_view(rows@)),
    {
        let ghost views = rows_view(rows@);
        let mut lines = no_lines();
        if rows.len() == 0 {
            say(&mut lines, Line::Out("当前没有在线会话(可能本机已下线)".to_owned()));
            return ErrandStep { lines, next: ErrandNext::Done { exit: 0 } };
        }
        match find_own_row(rows, &self.mac, &self.ip) {
            Some(i) => {
                let row = &rows[i];
                assert(views[i as int] == row@);
                let (line, call) = self.spa.kick_by_mac_call(&self.username, row);
                say(&mut lines, Line::Log(line));
                let ip = row.account_ip.as_str().to_owned();
                ErrandStep {
                    lines,
                    next: ErrandNext::Send { stage: ErrandStage::Kicking { ip }, call },
                }
            },
            None => {
                say(
                    &mut lines,
                    Line::Out(
                        join3(
                            "在线列表有 ",
                            &dec_text(rows.len() as u64),
                            " 台设备, 但没有本机(MAC/IP 均不匹配); 未做任何下线:",
                        ),
                    ),
                );
                let ghost top = lines_view(lines@);
                let mut i: usize = 0;
                assert(views.take(0) == Seq::<RowView>::empty());
                while i < rows.len()
                    invariant
                        i <= rows@.len(),
                        views == rows_view(rows@),
                        lines_view(lines@) == with_strangers(top, views.take(i as int)),
                    decreases rows@.len() - i,
                {
                    assert(views.take(i + 1).drop_last() == views.take(i as int));
                    assert(views.take(i + 1).last() == rows@[i as int]@);
                    say(&mut lines, Line::Out(words_of_stranger(&rows[i])));
                    i += 1;
                }
                assert(views.take(views.len() as int) == views);
                say(
                    &mut lines,
                    Line::Out("提示: 用 --adapter 指定本机网卡后重试".to_owned()),
                );
                ErrandStep { lines, next: ErrandNext::Done { exit: 3 } }
            },
        }
    }

    /// Goes on with the list of devices.
    fn list_came(&self, reply: &Reply) -> (r: ErrandStep)
        requires
            reply matches Ok(resp) ==> fits_decoder(resp.body@.len()),
        ensures
            r@ == after_listing(self@, reply_view(*reply)),
    {
        match self.spa.getonline(reply) {
            Err(e) => fail(&e),
            Ok(rows) => if self.take_offline {
                self.kick_own_device(&rows)
            } else {
                self.print_devices(&rows)
            },
        }
    }

    /// Ends the session once this device was told to go offline.
    fn kick_came(&self, ip: &str, reply: &Reply) -> (r: ErrandStep)
        requires
            reply matches Ok(resp) ==> fits_decoder(resp.body@.len()),
        ensures
            r@ == after_kick(self@, ip@, reply_view(*reply)),
    {
        match self.spa.kick_by_mac(reply) {
            Err(e) => fail(&join2("下线失败: ", &e)),
            Ok(words) => {
                let mut lines = no_lines();
                say(&mut lines, Line::Out(join5("下线结果: ", &words, " (本机 ", ip, ")")));
                let call = self.spa.logout();
                ErrandStep { lines, next: ErrandNext::Send { stage: ErrandStage::Leaving, call } }
            },
        }
    }

    /// Goes on with an errand, from what the request of `stage` came to.
    pub fn on_reply(&mut self, stage: ErrandStage, reply: &Reply) -> (r: ErrandStep)
        requires
            reply matches Ok(resp) ==> fits_decoder(resp.body@.len()),
        ensures
            r@ == errand_after_reply(old(self)@, stage@, reply_view(*reply)),
            final(self)@ == (ErrandView {
                cookie: errand_cookie(old(self)@, stage@, reply_view(*reply)),
                ..old(self)@
            }),
            final(self).spa.client == old(self).spa.client,
    {
        match stage {
            ErrandStage::Captcha => self.captcha_came(reply),
            ErrandStage::Login => self.login_came(reply),
            ErrandStage::Listing => self.list_came(reply),
            ErrandStage::Kicking { ip } => self.kick_came(&ip, reply),
            ErrandStage::Leaving => ErrandStep {
                lines: no_lines(),
                next: ErrandNext::Test { wait_secs: 3 },
            },
        }
    }
}

/// Ends an errand with the verdict of the connectivity test.
pub fn on_verdict(open: Option<bool>) -> (r: ErrandStep)
    ensures
        r@ == after_verdict(open),
{
    let mut lines = no_lines();
    let exit: i32 = match open {
        Some(false) => {
            say(&mut lines, Line::Out("复核: 已断网(回到未认证状态)".to_owned()));
            0
        },
        Some(true) => {
            say(
                &mut lines,
                Line::Out("复核: 仍显示在线(?), 请到自助管理界面确认".to_owned()),
            );
            1
        },
        None => {
            say(&mut lines, Line::Out("复核: 无结论".to_owned()));
            0
        },
    };
    ErrandStep { lines, next: ErrandNext::Done { exit } }
}

// ---------------------------------------------------------------------------
// Laws
// ---------------------------------------------------------------------------

/// A device is about to be told to go offline.
pub open spec fn kicks(next: ErrandNextView) -> bool {
    next matches ErrandNextView::Send { stage, .. } && stage is Kicking
}

/// Only this device is ever told to go offline: the request names a row of the list that
/// has its hardware address or its address.
pub proof fn law_only_this_device_goes_offline(
    e: ErrandView,
    stage: ErrandStageView,
    reply: ReplyView,
)
    requires
        kicks(errand_after_reply(e, stage, reply).next),
    ensures
        e.take_offline,
        stage is Listing,
        service_text("self/getonline.do"@, reply) is Ok,
        ({
            let rows = rows_in(service_text("self/getonline.do"@, reply)->Ok_0);
            &&& own_row(rows, e.mac, e.ip) is Some
            &&& 0 <= own_row(rows, e.mac, e.ip)->0 < rows.len()
            &&& errand_after_reply(e, stage, reply).next->call == service_call(
                e.cookie,
                "self/kickonlineByMac.do"@,
                kick_by_mac_fields(e.username, rows[own_row(rows, e.mac, e.ip)->0]),
            )
        }),
{
    let rows = rows_in(service_text("self/getonline.do"@, reply)->Ok_0);
    law_only_the_own_row_is_found(rows, e.mac, e.ip);
}

/// Listing the devices takes none of them offline.
pub proof fn law_listing_takes_nothing_offline(
    e: ErrandView,
    stage: ErrandStageView,
    reply: ReplyView,
)
    requires
        !e.take_offline,
    ensures
        !kicks(errand_after_reply(e, stage, reply).next),
{
}

/// An errand with another password.
pub open spec fn with_password(e: ErrandView, password: Seq<char>) -> ErrandView {
    ErrandView { password, ..e }
}

/// What comes next is the same, but for the request of a login, which carries the
/// credentials.
pub open spec fn same_but_for_login(one: ErrandNextView, two: ErrandNextView) -> bool {
    match (one, two) {
        (
            ErrandNextView::Send { stage: ErrandStageView::Login, .. },
            ErrandNextView::Send { stage: ErrandStageView::Login, .. },
        ) => true,
        _ => one == two,
    }
}

/// What an errand logs and prints holds nothing of the password: with another password, the
/// same session, codes and replies leave the same lines. Nothing but the request of the
/// login differs.
pub proof fn law_errand_hides_the_password(
    e: ErrandView,
    other: Seq<char>,
    session: Option<Seq<char>>,
    code: Option<Seq<char>>,
    typed: Seq<char>,
    stage: ErrandStageView,
    reply: ReplyView,
)
    ensures
        errand_first(e, session, code).lines == errand_first(
            with_password(e, other),
            session,
            code,
        ).lines,
        same_but_for_login(
            errand_first(e, session, code).next,
            errand_first(with_password(e, other), session, code).next,
        ),
        after_code(e, typed).lines == after_code(with_password(e, other), typed).lines,
        same_but_for_login(
            after_code(e, typed).next,
            after_code(with_password(e, other), typed).next,
        ),
        errand_after_reply(e, stage, reply) == errand_after_reply(
            with_password(e, other),
            stage,
            reply,
        ),
        errand_cookie(e, stage, reply) == errand_cookie(with_password(e, other), stage, reply),
{
}

/// How far an errand has come.
pub open spec fn errand_rank(next: ErrandNextView) -> int {
    match next {
        ErrandNextView::Send { stage, .. } => match stage {
            ErrandStageView::Captcha => 7,
            ErrandStageView::Login => 5,
            ErrandStageView::Listing => 4,
            ErrandStageView::Kicking { .. } => 3,
            ErrandStageView::Leaving => 2,
        },
        ErrandNextView::AskCode { .. } => 6,
        ErrandNextView::Test { .. } => 1,
        ErrandNextView::Done { .. } => 0,
    }
}

/// An errand ends: every step brings it nearer to its end.
pub proof fn law_errand_ends(
    e: ErrandView,
    stage: ErrandStageView,
    call: CallView,
    reply: ReplyView,
    png: Seq<u8>,
    session: Seq<char>,
    typed: Seq<char>,
    open: Option<bool>,
    wait_secs: int,
)
    ensures
        errand_rank(errand_after_reply(e, stage, reply).next) < errand_rank(
            ErrandNextView::Send { stage, call },
        ),
        errand_rank(after_code(e, typed).next) < errand_rank(
            ErrandNextView::AskCode { png, session },
        ),
        errand_rank(after_verdict(open).next) < errand_rank(
            ErrandNextView::Test { wait_secs },
        ),
        errand_rank(after_verdict(open).next) == 0,
{
}

} // verus!
