//! The window: which adapter it shows, what its controls ask for, and what it says.
use vstd::prelude::*;
use crate::common::SELF_SERVICE_URL;
use crate::ipv4::{ip_text, Ipv4};
use crate::login::LoginCode;
use crate::net::{
    adapters_view, campus_adapter, ips_text, join_ips, on_campus, Adapter, AdapterView,
};
use crate::text::{
    chars_of, contains, contains_text, first_where, join2, join3, join5, join_texts, joined,
    lemma_first_where, lower, lower_chars, push_text, same_text, texts, trim, trim_text,
};

verus! {

// ---------------------------------------------------------------------------
// Controls
// ---------------------------------------------------------------------------

pub const IDC_ADAPTER: u32 = 101;

pub const IDC_BTN_REFRESH: u32 = 102;

pub const IDC_INFO: u32 = 103;

pub const IDC_ED_USER: u32 = 104;

pub const IDC_ED_PASS: u32 = 105;

pub const IDC_CHK_SHOW: u32 = 106;

pub const IDC_CHK_SAVE: u32 = 107;

pub const IDC_RB_PC: u32 = 108;

pub const IDC_RB_MOBILE: u32 = 109;

pub const IDC_BTN_TEST: u32 = 110;

pub const IDC_BTN_LOGIN: u32 = 111;

pub const IDC_BTN_HISTORY: u32 = 112;

pub const IDC_BTN_CLEAR: u32 = 113;

pub const IDC_BTN_SELF: u32 = 114;

pub const IDC_LBL_STATUS: u32 = 115;

pub const IDC_ED_LOG: u32 = 116;

pub const IDC_ED_PORTAL: u32 = 117;

pub const IDC_BTN_DETECT: u32 = 118;

/// The notice of a drop-down list that its selection changed.
pub const SELECTION_CHANGED: u32 = 1;

/// What a control asks for.
#[derive(Debug, Clone, Copy, PartialEq, Eq, Structural)]
pub enum Command {
    Refresh,
    ShowAdapter,
    TogglePassword,
    ToggleSave,
    ChooseComputer,
    ChoosePhone,
    Test,
    Login,
    History,
    ClearSaved,
    SelfService,
    DetectPortal,
    Nothing,
}

/// What the control `id` asks for with the notice `code`.
pub open spec fn command_of(id: u32, code: u32) -> Command {
    if id == IDC_BTN_REFRESH {
        Command::Refresh
    } else if id == IDC_ADAPTER && code == SELECTION_CHANGED {
        Command::ShowAdapter
    } else if id == IDC_CHK_SHOW {
        Command::TogglePassword
    } else if id == IDC_CHK_SAVE {
        Command::ToggleSave
    } else if id == IDC_RB_PC {
        Command::ChooseComputer
    } else if id == IDC_RB_MOBILE {
        Command::ChoosePhone
    } else if id == IDC_BTN_TEST {
        Command::Test
    } else if id == IDC_BTN_LOGIN {
        Command::Login
    } else if id == IDC_BTN_HISTORY {
        Command::History
    } else if id == IDC_BTN_CLEAR {
        Command::ClearSaved
    } else if id == IDC_BTN_SELF {
        Command::SelfService
    } else if id == IDC_BTN_DETECT {
        Command::DetectPortal
    } else {
        Command::Nothing
    }
}

/// What the control `id` asks for with the notice `code`. Notices of the log are none of
/// them: answering one with a line would bring the next.
pub fn handle_command(id: u32, code: u32) -> (r: Command)
    ensures
        r == command_of(id, code),
{
    if id == IDC_BTN_REFRESH {
        Command::Refresh
    } else if id == IDC_ADAPTER && code == SELECTION_CHANGED {
        Command::ShowAdapter
    } else if id == IDC_CHK_SHOW {
        Command::TogglePassword
    } else if id == IDC_CHK_SAVE {
        Command::ToggleSave
    } else if id == IDC_RB_PC {
        Command::ChooseComputer
    } else if id == IDC_RB_MOBILE {
        Command::ChoosePhone
    } else if id == IDC_BTN_TEST {
        Command::Test
    } else if id == IDC_BTN_LOGIN {
        Command::Login
    } else if id == IDC_BTN_HISTORY {
        Command::History
    } else if id == IDC_BTN_CLEAR {
        Command::ClearSaved
    } else if id == IDC_BTN_SELF {
        Command::SelfService
    } else if id == IDC_BTN_DETECT {
        Command::DetectPortal
    } else {
        Command::Nothing
    }
}

/// The kind of device that is chosen: a phone only where it is marked.
pub fn current_ua_kind(phone_marked: bool) -> (r: &'static str)
    ensures
        r@ == (if phone_marked {
            "mobile"@
        } else {
            "pc"@
        }),
{
    if phone_marked {
        "mobile"
    } else {
        "pc"
    }
}

/// A length at 96 dots per inch, at another density, rounded towards zero.
pub fn dp(v: i32, dpi: u32) -> (r: i32)
    requires
        i32::MIN <= v * dpi <= i32::MAX,
        dpi <= i32::MAX,
    ensures
        r == (if v >= 0 {
            v * dpi / 96
        } else {
            -(-v * dpi / 96)
        }),
{
    if v >= 0 {
        assert(0 <= v * dpi) by (nonlinear_arith)
            requires
                0 <= v,
                0 <= dpi,
        ;
        (v * dpi as i32) / 96
    } else {
        let size: i64 = -(v as i64);
        assert(0 <= size * dpi == -(v * dpi)) by (nonlinear_arith)
            requires
                size == -v,
                0 <= size,
                0 <= dpi,
        ;
        let scaled: i64 = size * dpi as i64 / 96;
        (-scaled) as i32
    }
}

/// How much of the log's control to cut: the first half, once it holds more than 80000
/// characters.
pub fn log_to_cut(len: i32) -> (r: Option<i32>)
    ensures
        r == (if len > 80000 {
            Some((len / 2) as i32)
        } else {
            None
        }),
{
    if len > 80_000 {
        Some(len / 2)
    } else {
        None
    }
}

/// The first of the log's lines that the window shows when it opens: of the last 200.
pub fn first_line_shown(lines: usize) -> (r: usize)
    ensures
        r == (if lines > 200 {
            lines - 200
        } else {
            0
        }),
{
    if lines > 200 {
        lines - 200
    } else {
        0
    }
}

// ---------------------------------------------------------------------------
// Adapters
// ---------------------------------------------------------------------------

/// Adapters with exactly this name.
pub open spec fn named_exactly(name: Seq<char>) -> spec_fn(AdapterView) -> bool {
    |a: AdapterView| a.name == name
}

/// Adapters that are wireless by their name.
pub open spec fn named_wlan() -> spec_fn(AdapterView) -> bool {
    |a: AdapterView| contains(lower(a.name), "wlan"@)
}

/// The adapter that is selected at first: the one that is kept, or else the first on the
/// campus, or else the first that is wireless, or else the first.
pub open spec fn preselected(adapters: Seq<AdapterView>, kept: Seq<char>) -> Option<int> {
    if kept.len() > 0 && first_where(adapters, named_exactly(kept), 0) is Some {
        first_where(adapters, named_exactly(kept), 0)
    } else if first_where(adapters, campus_adapter(), 0) is Some {
        first_where(adapters, campus_adapter(), 0)
    } else if first_where(adapters, named_wlan(), 0) is Some {
        first_where(adapters, named_wlan(), 0)
    } else if adapters.len() > 0 {
        Some(0)
    } else {
        None
    }
}

/// The first adapter with exactly this name.
fn position_named(adapters: &[Adapter], name: &str) -> (r: Option<usize>)
    ensures
        match r {
            Some(i) => i < adapters@.len() && first_where(
                adapters_view(adapters@),
                named_exactly(name@),
                0,
            ) == Some(i as int),
            None => first_where(adapters_view(adapters@), named_exactly(name@), 0) is None,
        },
{
    let ghost views = adapters_view(adapters@);
    let mut i: usize = 0;
    while i < adapters.len()
        invariant
            i <= adapters@.len(),
            views == adapters_view(adapters@),
            first_where(views, named_exactly(name@), 0) == first_where(
                views,
                named_exactly(name@),
                i as int,
            ),
        decreases adapters@.len() - i,
    {
        assert(views[i as int] == adapters@[i as int]@);
        if same_text(&adapters[i].name, name) {
            return Some(i);
        }
        i += 1;
    }
    None
}

/// The first adapter on the campus.
fn position_on_campus(adapters: &[Adapter]) -> (r: Option<usize>)
    ensures
        match r {
            Some(i) => i < adapters@.len() && first_where(
                adapters_view(adapters@),
                campus_adapter(),
                0,
            ) == Some(i as int),
            None => first_where(adapters_view(adapters@), campus_adapter(), 0) is None,
        },
{
    let ghost views = adapters_view(adapters@);
    let mut i: usize = 0;
    while i < adapters.len()
        invariant
            i <= adapters@.len(),
            views == adapters_view(adapters@),
            first_where(views, campus_adapter(), 0) == first_where(
                views,
                campus_adapter(),
                i as int,
            ),
        decreases adapters@.len() - i,
    {
        assert(views[i as int] == adapters@[i as int]@);
        if adapters[i].is_campus() {
            return Some(i);
        }
        i += 1;
    }
    None
}

/// The first adapter that is wireless by its name.
fn position_wlan(adapters: &[Adapter]) -> (r: Option<usize>)
    ensures
        match r {
            Some(i) => i < adapters@.len() && first_where(
                adapters_view(adapters@),
                named_wlan(),
                0,
            ) == Some(i as int),
            None => first_where(adapters_view(adapters@), named_wlan(), 0) is None,
        },
{
    let ghost views = adapters_view(adapters@);
    let mut i: usize = 0;
    while i < adapters.len()
        invariant
            i <= adapters@.len(),
            views == adapters_view(adapters@),
            first_where(views, named_wlan(), 0) == first_where(views, named_wlan(), i as int),
        decreases adapters@.len() - i,
    {
        assert(views[i as int] == adapters@[i as int]@);
        if contains_text(&lower_chars(&chars_of(&adapters[i].name)), &chars_of("wlan")) {
            return Some(i);
        }
        i += 1;
    }
    None
}

/// The adapter that is selected at first.
pub fn select_adapter(adapters: &[Adapter], kept: &str) -> (r: Option<usize>)
    ensures
        match r {
            Some(i) => i < adapters@.len() && preselected(adapters_view(adapters@), kept@) == Some(
                i as int,
            ),
            None => preselected(adapters_view(adapters@), kept@) is None,
        },
{
    if !kept.is_empty() {
        if let Some(i) = position_named(adapters, kept) {
            return Some(i);
        }
    }
    if let Some(i) = position_on_campus(adapters) {
        return Some(i);
    }
    if let Some(i) = position_wlan(adapters) {
        return Some(i);
    }
    if adapters.len() > 0 {
        Some(0)
    } else {
        None
    }
}

/// An adapter as an entry of the list.
pub fn adapter_label(a: &Adapter) -> (r: String)
    ensures
        r@ == a@.name + "  |  "@ + ips_text(a@.ipv4, ", "@) + "  |  "@ + a@.mac,
{
    join5(&a.name, "  |  ", &join_ips(&a.ipv4, ", "), "  |  ", &a.mac)
}

/// What the window says of the selected adapter.
pub open spec fn info_of(a: AdapterView) -> Seq<char> {
    "名称: "@ + a.name + "    状态: "@ + a.status + "    MAC: "@ + a.mac + "\r\nIPv4: "@ + ips_text(
        a.ipv4,
        ", "@,
    ) + "    适配器: "@ + a.desc + "\r\n"@ + (if on_campus(a) {
        "提示: 该网卡在校园网段(10.200/10.202), 适合用于认证"@
    } else {
        "注意: 该网卡不在校园网段(10.200/10.202), 认证可能不适用"@
    })
}

/// What the window says of the selected adapter.
pub fn info_text(selected: Option<&Adapter>) -> (r: String)
    ensures
        r@ == (match selected {
            Some(a) => info_of(a@),
            None => "未选择网卡"@,
        }),
{
    let a = match selected {
        Some(a) => a,
        None => {
            return "未选择网卡".to_owned();
        },
    };
    let mut out = join5("名称: ", &a.name, "    状态: ", &a.status, "    MAC: ");
    push_text(&mut out, &a.mac);
    push_text(&mut out, "\r\nIPv4: ");
    push_text(&mut out, &join_ips(&a.ipv4, ", "));
    push_text(&mut out, "    适配器: ");
    push_text(&mut out, &a.desc);
    push_text(&mut out, "\r\n");
    if a.is_campus() {
        push_text(&mut out, "提示: 该网卡在校园网段(10.200/10.202), 适合用于认证");
    } else {
        push_text(&mut out, "注意: 该网卡不在校园网段(10.200/10.202), 认证可能不适用");
    }
    out
}

// ---------------------------------------------------------------------------
// Signing in
// ---------------------------------------------------------------------------

/// What the window's controls hold when a task begins.
#[derive(Debug)]
pub struct TaskParams {
    pub user: String,
    pub pass: String,
    pub ua_kind: String,
    pub source: Option<Ipv4>,
    pub adapter_name: String,
    pub portal: String,
    pub save: bool,
}

/// What the window's controls hold, as plain values.
#[verifier::ext_equal]
pub struct ParamsView {
    pub user: Seq<char>,
    pub pass: Seq<char>,
    pub ua_kind: Seq<char>,
    pub source: Option<Ipv4>,
    pub adapter_name: Seq<char>,
    pub portal: Seq<char>,
    pub save: bool,
}

impl View for TaskParams {
    type V = ParamsView;

    open spec fn view(&self) -> ParamsView {
        ParamsView {
            user: self.user@,
            pass: self.pass@,
            ua_kind: self.ua_kind@,
            source: self.source,
            adapter_name: self.adapter_name@,
            portal: self.portal@,
            save: self.save,
        }
    }
}

/// What the window's controls hold, if an adapter is selected: the account and the address
/// of the portal without the blanks around them, the password as it is, and the first
/// address of the adapter.
pub open spec fn params_of(
    user: Seq<char>,
    pass: Seq<char>,
    portal: Seq<char>,
    selected: Option<AdapterView>,
    phone_marked: bool,
    save: bool,
) -> Option<ParamsView> {
    match selected {
        Some(a) => Some(
            ParamsView {
                user: trim(user),
                pass,
                ua_kind: if phone_marked {
                    "mobile"@
                } else {
                    "pc"@
                },
                source: if a.ipv4.len() > 0 {
                    Some(a.ipv4[0])
                } else {
                    None
                },
                adapter_name: a.name,
                portal: trim(portal),
                save,
            },
        ),
        None => None,
    }
}

/// What the window's controls hold, if an adapter is selected.
pub fn collect_params(
    user: &str,
    pass: &str,
    portal: &str,
    selected: Option<&Adapter>,
    phone_marked: bool,
    save: bool,
) -> (r: Option<TaskParams>)
    ensures
        ({
            let view = match selected {
                Some(a) => Some(a@),
                None => None,
            };
            match params_of(user@, pass@, portal@, view, phone_marked, save) {
                Some(p) => r matches Some(q) && q@ == p,
                None => r is None,
            }
        }),
{
    match selected {
        Some(a) => Some(
            TaskParams {
                user: trim_text(user),
                pass: pass.to_owned(),
                ua_kind: current_ua_kind(phone_marked).to_owned(),
                source: if a.ipv4.len() > 0 {
                    Some(a.ipv4[0])
                } else {
                    None
                },
                adapter_name: a.name.as_str().to_owned(),
                portal: trim_text(portal),
                save,
            },
        ),
        None => None,
    }
}

/// The name of the slot that a kind of device takes.
pub open spec fn slot_label(ua_kind: Seq<char>) -> Seq<char> {
    if ua_kind == "mobile"@ {
        "手机端(手机槽)"@
    } else {
        "电脑端(PC 槽)"@
    }
}

/// What the window asks before it signs in.
pub open spec fn confirm_of(p: ParamsView) -> Seq<char> {
    "即将使用以下配置提交登录认证:\n\n账号: "@ + p.user + "\n网卡: "@ + p.adapter_name + " ("@
        + (match p.source {
        Some(ip) => ip_text(ip),
        None => "自动"@,
    }) + ")\n设备类型: "@ + slot_label(p.ua_kind) + "\n保存账号密码: "@ + (if p.save {
        "是(DPAPI 加密)"@
    } else {
        "否"@
    })
        + "\n\n注意: 认证会占用对应设备槽位; 若槽位已被占用,\n程序只会提示手动下线, 不会自动顶号.\n\n确定继续?"@
}

/// The log line that begins a login from the window. The password is not in it.
pub open spec fn opening_of(p: ParamsView) -> Seq<char> {
    "---- 一键认证: 账号="@ + p.user + " 网卡="@ + p.adapter_name + " 设备="@ + slot_label(
        p.ua_kind,
    ) + " 保存="@ + (if p.save {
        "是"@
    } else {
        "否"@
    }) + " ----"@
}

impl TaskParams {
    /// Whether there is an account and a password to sign in with.
    pub fn is_complete(&self) -> (r: bool)
        ensures
            r == (self@.user.len() > 0 && self@.pass.len() > 0),
    {
        !self.user.as_str().is_empty() && !self.pass.as_str().is_empty()
    }

    /// The password to keep: only where that was chosen.
    pub fn password_to_keep(&self) -> (r: Option<&str>)
        ensures
            match r {
                Some(p) => self.save && p@ == self@.pass,
                None => !self.save,
            },
    {
        if self.save {
            Some(self.pass.as_str())
        } else {
            None
        }
    }

    /// The address of the portal to use and to keep, where one is filled in.
    pub fn portal_to_keep(&self) -> (r: Option<&str>)
        ensures
            match r {
                Some(p) => self@.portal.len() > 0 && p@ == self@.portal,
                None => self@.portal.len() == 0,
            },
    {
        if self.portal.as_str().is_empty() {
            None
        } else {
            Some(self.portal.as_str())
        }
    }

    /// The name of the slot that the device takes.
    fn slot(&self) -> (r: &'static str)
        ensures
            r@ == slot_label(self@.ua_kind),
    {
        if same_text(&self.ua_kind, "mobile") {
            "手机端(手机槽)"
        } else {
            "电脑端(PC 槽)"
        }
    }

    /// What the window asks before it signs in.
    pub fn confirm_text(&self) -> (r: String)
        ensures
            r@ == confirm_of(self@),
    {
        let mut out = join5(
            "即将使用以下配置提交登录认证:\n\n账号: ",
            &self.user,
            "\n网卡: ",
            &self.adapter_name,
            " (",
        );
        match &self.source {
            Some(ip) => push_text(&mut out, &ip.text()),
            None => push_text(&mut out, "自动"),
        }
        push_text(&mut out, ")\n设备类型: ");
        push_text(&mut out, self.slot());
        push_text(&mut out, "\n保存账号密码: ");
        if self.save {
            push_text(&mut out, "是(DPAPI 加密)");
        } else {
            push_text(&mut out, "否");
        }
        push_text(
            &mut out,
            "\n\n注意: 认证会占用对应设备槽位; 若槽位已被占用,\n程序只会提示手动下线, 不会自动顶号.\n\n确定继续?",
        );
        out
    }

    /// The log line that begins a login from the window.
    pub fn opening_line(&self) -> (r: String)
        ensures
            r@ == opening_of(self@),
    {
        let mut out = join5(
            "---- 一键认证: 账号=",
            &self.user,
            " 网卡=",
            &self.adapter_name,
            " 设备=",
        );
        push_text(&mut out, self.slot());
        push_text(&mut out, " 保存=");
        if self.save {
            push_text(&mut out, "是");
        } else {
            push_text(&mut out, "否");
        }
        push_text(&mut out, " ----");
        out
    }
}

/// The sign on a message.
#[derive(Debug, Clone, Copy, PartialEq, Eq, Structural)]
pub enum Sign {
    Information,
    Warning,
    Error,
}

/// What the window shows when a login is over: the state, and a message.
#[derive(Debug)]
pub struct Feedback {
    pub status: &'static str,
    pub text: String,
    pub caption: &'static str,
    pub sign: Sign,
}

/// What the window shows when a login is over, as plain values.
#[verifier::ext_equal]
pub struct FeedbackView {
    pub status: Seq<char>,
    pub text: Seq<char>,
    pub caption: Seq<char>,
    pub sign: Sign,
}

impl View for Feedback {
    type V = FeedbackView;

    open spec fn view(&self) -> FeedbackView {
        FeedbackView {
            status: self.status@,
            text: self.text@,
            caption: self.caption@,
            sign: self.sign,
        }
    }
}

/// What the window shows when a login is over.
pub open spec fn feedback_of(ok: bool, code: LoginCode, detail: Seq<char>) -> FeedbackView {
    if ok && code == LoginCode::Already {
        FeedbackView {
            status: "已在线"@,
            text: "本机已在线, 无需认证."@,
            caption: "联通正常"@,
            sign: Sign::Information,
        }
    } else if ok {
        FeedbackView {
            status: "已上线"@,
            text: "认证成功, 已上线!"@,
            caption: "认证成功"@,
            sign: Sign::Information,
        }
    } else if code == LoginCode::Conflict {
        FeedbackView {
            status: "槽位冲突"@,
            text: "该设备槽位已被占用(或在线终端数超限).\n\n请打开自助管理界面手动下线占用设备后重试:\n"@
                + SELF_SERVICE_URL@ + "\n\n(点击「自助管理(手动下线)」按钮可直达)"@,
            caption: "槽位冲突"@,
            sign: Sign::Warning,
        }
    } else if code == LoginCode::BadPassword {
        FeedbackView {
            status: "密码错误"@,
            text: "密码错误, 请检查后重试."@,
            caption: "认证失败"@,
            sign: Sign::Error,
        }
    } else {
        FeedbackView {
            status: "认证失败"@,
            text: "认证失败: "@ + detail,
            caption: "认证失败"@,
            sign: Sign::Error,
        }
    }
}

/// What the window shows when a login is over.
pub fn login_feedback(ok: bool, code: LoginCode, detail: &str) -> (r: Feedback)
    ensures
        r@ == feedback_of(ok, code, detail@),
{
    if ok && code == LoginCode::Already {
        Feedback {
            status: "已在线",
            text: "本机已在线, 无需认证.".to_owned(),
            caption: "联通正常",
            sign: Sign::Information,
        }
    } else if ok {
        Feedback {
            status: "已上线",
            text: "认证成功, 已上线!".to_owned(),
            caption: "认证成功",
            sign: Sign::Information,
        }
    } else if code == LoginCode::Conflict {
        Feedback {
            status: "槽位冲突",
            text: join3(
                "该设备槽位已被占用(或在线终端数超限).\n\n请打开自助管理界面手动下线占用设备后重试:\n",
                SELF_SERVICE_URL,
                "\n\n(点击「自助管理(手动下线)」按钮可直达)",
            ),
            caption: "槽位冲突",
            sign: Sign::Warning,
        }
    } else if code == LoginCode::BadPassword {
        Feedback {
            status: "密码错误",
            text: "密码错误, 请检查后重试.".to_owned(),
            caption: "认证失败",
            sign: Sign::Error,
        }
    } else {
        Feedback {
            status: "认证失败",
            text: join2("认证失败: ", detail),
            caption: "认证失败",
            sign: Sign::Error,
        }
    }
}

/// The log line on the verdict of a connectivity test.
pub fn verdict_line(open: Option<bool>) -> (r: &'static str)
    ensures
        r@ == (match open {
            Some(true) => "结论: 已联网(已认证), 无需登录"@,
            Some(false) => "结论: 未认证(被门户劫持), 可执行一键认证"@,
            None => "结论: 无法判定, 网卡可能未连接或网络异常"@,
        }),
{
    match open {
        Some(true) => "结论: 已联网(已认证), 无需登录",
        Some(false) => "结论: 未认证(被门户劫持), 可执行一键认证",
        None => "结论: 无法判定, 网卡可能未连接或网络异常",
    }
}

/// The log line on an account that was kept.
pub fn restored_line(user: &str, with_password: bool) -> (r: String)
    ensures
        r@ == "已载入保存的账号: "@ + user@ + (if with_password {
            "(含加密保存的密码)"@
        } else {
            ""@
        }),
{
    let mark = if with_password {
        "(含加密保存的密码)"
    } else {
        ""
    };
    join3("已载入保存的账号: ", user, mark)
}

/// What the window of the log's history shows.
pub fn history_text(lines: &Vec<String>) -> (r: String)
    ensures
        r@ == (if joined(texts(lines@), "\r\n"@).len() == 0 {
            "(暂无日志)"@
        } else {
            joined(texts(lines@), "\r\n"@)
        }),
{
    let all = join_texts(lines, "\r\n");
    if all.as_str().is_empty() {
        "(暂无日志)".to_owned()
    } else {
        all
    }
}

// ---------------------------------------------------------------------------
// Laws
// ---------------------------------------------------------------------------

/// Where there are adapters, one is selected.
pub proof fn law_an_adapter_is_selected(adapters: Seq<AdapterView>, kept: Seq<char>)
    ensures
        preselected(adapters, kept) is Some <==> adapters.len() > 0,
{
    lemma_first_where(adapters, named_exactly(kept), 0);
    lemma_first_where(adapters, campus_adapter(), 0);
    lemma_first_where(adapters, named_wlan(), 0);
}

/// What the window says and logs before it signs in does not depend on the password.
pub proof fn law_window_hides_the_password(p: ParamsView, other: Seq<char>)
    ensures
        confirm_of(p) == confirm_of(ParamsView { pass: other, ..p }),
        opening_of(p) == opening_of(ParamsView { pass: other, ..p }),
{
}

} // verus!
