//! The command line: what the arguments ask for, and what is said and returned in the end.
use vstd::prelude::*;
use crate::common::SELF_SERVICE_URL;
use crate::crypto::fits_encoder;
use crate::ipv4::{ip_text, law_notation_is_unique, Ipv4};
use crate::login::LoginCode;
use crate::net::{
    adapter_ip, adapter_named, adapters_view, campus_adapter, find_adapter, guess_campus_adapter,
    guessed_adapter, ips_text, join_ips, resolve_adapter_ip, wireless_adapter, Adapter,
    AdapterView,
};
use crate::store::{bytes_view, credentials_kept, keeping_fails, DataView, Store};
use crate::text::{
    chars_of, first_where, is_blank, join2, join3, join5, lemma_first_where, note, opt_text,
    push_text, same_text, texts, trim, trim_text,
};

verus! {

/// How the program is used.
pub const HELP: &'static str = "贺州学院校园网认证工具 (Rust 原生版)\n用法:\n  campus-auth-cli.exe --check                          探测认证状态(不登录)\n  campus-auth-cli.exe --list-adapters                  列出网卡\n  campus-auth-cli.exe --username U --password P        登录(默认电脑端)\n  campus-auth-cli.exe --ask-password                   交互输入密码\n  campus-auth-cli.exe --offline                        下线本设备并清 MAC 绑定(弹验证码图输入)\n  campus-auth-cli.exe --list-online                    查看本账号在线设备(需验证码)\n  --offline-code N --offline-session S                 (脚本)两段式提交验证码\n  campus-auth-cli.exe --detect-portal                  仅探测门户地址(排查用)\n选项:\n  --ua pc|mobile       设备类型(占 PC 槽还是手机槽), 默认 pc\n  --adapter NAME       网卡名(如 WLAN), 自动绑定其源 IP\n  --source IP          直接指定源 IP\n  --portal URL         手动指定门户地址(留空=靠 302 劫持自动发现)\n                       自动发现失败时: 浏览器打开任意 http 网站, 把跳转后的地址整条抄过来\n  --save               登录成功后保存账号(密码 DPAPI 加密)\n  --save-portal        把本次发现的门户地址写进数据文件\n  --forget             清除已保存的账号密码\n退出码: 0=成功/已在线  1=失败  2=未探测到门户(需手动填门户地址)  3=槽位冲突需手动下线";

/// How the program is used.
pub fn print_help() -> (r: &'static str)
    ensures
        r@ == HELP@,
{
    HELP
}

// ---------------------------------------------------------------------------
// Arguments
// ---------------------------------------------------------------------------

/// What the arguments ask for.
#[derive(Debug)]
pub struct Options {
    pub username: String,
    pub password: String,
    pub ask_password: bool,
    pub ua: String,
    pub adapter: String,
    pub source: Option<Ipv4>,
    pub check: bool,
    pub list: bool,
    pub save: bool,
    pub forget: bool,
    pub offline: bool,
    pub offline_code: Option<String>,
    pub offline_session: Option<String>,
    pub list_online: bool,
    pub portal: String,
    pub detect_portal: bool,
    pub save_portal: bool,
}

/// What the arguments ask for, as plain values.
#[verifier::ext_equal]
pub struct OptionsView {
    pub username: Seq<char>,
    pub password: Seq<char>,
    pub ask_password: bool,
    pub ua: Seq<char>,
    pub adapter: Seq<char>,
    pub source: Option<Ipv4>,
    pub check: bool,
    pub list: bool,
    pub save: bool,
    pub forget: bool,
    pub offline: bool,
    pub offline_code: Option<Seq<char>>,
    pub offline_session: Option<Seq<char>>,
    pub list_online: bool,
    pub portal: Seq<char>,
    pub detect_portal: bool,
    pub save_portal: bool,
}

impl View for Options {
    type V = OptionsView;

    open spec fn view(&self) -> OptionsView {
        OptionsView {
            username: self.username@,
            password: self.password@,
            ask_password: self.ask_password,
            ua: self.ua@,
            adapter: self.adapter@,
            source: self.source,
            check: self.check,
            list: self.list,
            save: self.save,
            forget: self.forget,
            offline: self.offline,
            offline_code: opt_text(self.offline_code),
            offline_session: opt_text(self.offline_session),
            list_online: self.list_online,
            portal: self.portal@,
            detect_portal: self.detect_portal,
            save_portal: self.save_portal,
        }
    }
}

/// What is asked for without arguments.
pub open spec fn no_options() -> OptionsView {
    OptionsView {
        username: Seq::empty(),
        password: Seq::empty(),
        ask_password: false,
        ua: "pc"@,
        adapter: Seq::empty(),
        source: None,
        check: false,
        list: false,
        save: false,
        forget: false,
        offline: false,
        offline_code: None,
        offline_session: None,
        list_online: false,
        portal: Seq::empty(),
        detect_portal: false,
        save_portal: false,
    }
}

/// What the arguments come to.
#[derive(Debug)]
pub enum Parsed {
    /// Something to do.
    Run(Options),
    /// The help was asked for.
    Help,
    /// An argument is wrong: what to say, and whether the help is to follow.
    Refused { message: String, with_help: bool },
}

/// What the arguments come to, as plain values.
#[verifier::ext_equal]
pub enum ParsedView {
    Run(OptionsView),
    Help,
    Refused { message: Seq<char>, with_help: bool },
}

impl View for Parsed {
    type V = ParsedView;

    open spec fn view(&self) -> ParsedView {
        match self {
            Parsed::Run(o) => ParsedView::Run(o@),
            Parsed::Help => ParsedView::Help,
            Parsed::Refused { message, with_help } => ParsedView::Refused {
                message: message@,
                with_help: *with_help,
            },
        }
    }
}

/// The argument at a place, if there is one.
pub open spec fn arg_at(args: Seq<Seq<char>>, i: int) -> Option<Seq<char>> {
    if 0 <= i < args.len() {
        Some(args[i])
    } else {
        None
    }
}

/// The argument at a place, or an empty one.
pub open spec fn arg_or_empty(args: Seq<Seq<char>>, i: int) -> Seq<char> {
    if 0 <= i < args.len() {
        args[i]
    } else {
        Seq::empty()
    }
}

/// The address that a text denotes, if it denotes one.
pub open spec fn address_in(s: Seq<char>) -> Option<Ipv4> {
    if exists|ip: Ipv4| s == #[trigger] ip_text(ip) {
        Some(choose|ip: Ipv4| s == #[trigger] ip_text(ip))
    } else {
        None
    }
}

/// A refusal.
pub open spec fn refused(message: Seq<char>) -> ParsedView {
    ParsedView::Refused { message, with_help: false }
}

/// What the arguments from `i` on come to, on top of what those before asked for.
pub open spec fn parsed_from(args: Seq<Seq<char>>, i: int, o: OptionsView) -> ParsedView
    decreases args.len() + 1 - i,
{
    if i < 0 || i >= args.len() {
        ParsedView::Run(o)
    } else if args[i] == "--check"@ {
        parsed_from(args, i + 1, OptionsView { check: true, ..o })
    } else if args[i] == "--list-adapters"@ {
        parsed_from(args, i + 1, OptionsView { list: true, ..o })
    } else if args[i] == "--save"@ {
        parsed_from(args, i + 1, OptionsView { save: true, ..o })
    } else if args[i] == "--forget"@ {
        parsed_from(args, i + 1, OptionsView { forget: true, ..o })
    } else if args[i] == "--ask-password"@ {
        parsed_from(args, i + 1, OptionsView { ask_password: true, ..o })
    } else if args[i] == "--offline"@ {
        parsed_from(args, i + 1, OptionsView { offline: true, ..o })
    } else if args[i] == "--list-online"@ {
        parsed_from(args, i + 1, OptionsView { list_online: true, ..o })
    } else if args[i] == "--detect-portal"@ {
        parsed_from(args, i + 1, OptionsView { detect_portal: true, ..o })
    } else if args[i] == "--save-portal"@ {
        parsed_from(args, i + 1, OptionsView { save_portal: true, ..o })
    } else if args[i] == "--help"@ || args[i] == "-h"@ {
        ParsedView::Help
    } else if args[i] == "--offline-code"@ {
        parsed_from(args, i + 2, OptionsView { offline_code: arg_at(args, i + 1), ..o })
    } else if args[i] == "--offline-session"@ {
        parsed_from(args, i + 2, OptionsView { offline_session: arg_at(args, i + 1), ..o })
    } else if args[i] == "--ua"@ {
        if arg_at(args, i + 1) == Some("pc"@) || arg_at(args, i + 1) == Some("mobile"@) {
            parsed_from(args, i + 2, OptionsView { ua: args[i + 1], ..o })
        } else {
            refused("--ua 需要 pc 或 mobile"@)
        }
    } else if args[i] == "--adapter"@ {
        parsed_from(args, i + 2, OptionsView { adapter: arg_or_empty(args, i + 1), ..o })
    } else if args[i] == "--source"@ {
        if i + 1 < args.len() && address_in(args[i + 1]) is Some {
            parsed_from(args, i + 2, OptionsView { source: address_in(args[i + 1]), ..o })
        } else {
            refused("--source 需要合法 IPv4 地址"@)
        }
    } else if args[i] == "--username"@ {
        parsed_from(args, i + 2, OptionsView { username: arg_or_empty(args, i + 1), ..o })
    } else if args[i] == "--password"@ {
        parsed_from(args, i + 2, OptionsView { password: arg_or_empty(args, i + 1), ..o })
    } else if args[i] == "--portal"@ {
        parsed_from(args, i + 2, OptionsView { portal: arg_or_empty(args, i + 1), ..o })
    } else {
        ParsedView::Refused { message: "未知参数: "@ + args[i], with_help: true }
    }
}

/// The argument at a place, if there is one.
fn arg(args: &[String], i: usize) -> (r: Option<String>)
    ensures
        opt_text(r) == arg_at(texts(args@), i as int),
{
    if i < args.len() {
        assert(texts(args@)[i as int] == args@[i as int]@);
        Some(args[i].as_str().to_owned())
    } else {
        None
    }
}

/// The argument at a place, or an empty one.
fn arg_or_none(args: &[String], i: usize) -> (r: String)
    ensures
        r@ == arg_or_empty(texts(args@), i as int),
{
    match arg(args, i) {
        Some(s) => s,
        None => String::new(),
    }
}

/// The address that a text denotes, if it denotes one.
fn read_address(s: &str) -> (r: Option<Ipv4>)
    ensures
        r == address_in(s@),
{
    match Ipv4::parse(s) {
        Some(ip) => {
            proof {
                let other = choose|x: Ipv4| s@ == #[trigger] ip_text(x);
                law_notation_is_unique(ip, other);
            }
            Some(ip)
        },
        None => None,
    }
}

/// Sets what a flag without a value asks for. Any other argument is left alone.
fn set_flag(o: &mut Options, flag: &str) -> (r: bool)
    ensures
        r == (flag@ == "--check"@ || flag@ == "--list-adapters"@ || flag@ == "--save"@ || flag@
            == "--forget"@ || flag@ == "--ask-password"@ || flag@ == "--offline"@ || flag@
            == "--list-online"@ || flag@ == "--detect-portal"@ || flag@ == "--save-portal"@),
        r ==> forall|args: Seq<Seq<char>>, i: int|
            0 <= i < args.len() && args[i] == flag@ ==> #[trigger] parsed_from(args, i, old(o)@)
                == parsed_from(args, i + 1, final(o)@),
        !r ==> *final(o) == *old(o),
{
    if same_text(flag, "--check") {
        o.check = true;
    } else if same_text(flag, "--list-adapters") {
        o.list = true;
    } else if same_text(flag, "--save") {
        o.save = true;
    } else if same_text(flag, "--forget") {
        o.forget = true;
    } else if same_text(flag, "--ask-password") {
        o.ask_password = true;
    } else if same_text(flag, "--offline") {
        o.offline = true;
    } else if same_text(flag, "--list-online") {
        o.list_online = true;
    } else if same_text(flag, "--detect-portal") {
        o.detect_portal = true;
    } else if same_text(flag, "--save-portal") {
        o.save_portal = true;
    } else {
        return false;
    }
    true
}

/// What the arguments come to.
pub fn parse_args(args: &[String]) -> (r: Parsed)
    ensures
        r@ == parsed_from(texts(args@), 0, no_options()),
{
    let ghost views = texts(args@);
    let mut o = Options {
        username: String::new(),
        password: String::new(),
        ask_password: false,
        ua: "pc".to_owned(),
        adapter: String::new(),
        source: None,
        check: false,
        list: false,
        save: false,
        forget: false,
        offline: false,
        offline_code: None,
        offline_session: None,
        list_online: false,
        portal: String::new(),
        detect_portal: false,
        save_portal: false,
    };
    assert(o@ =~= no_options());
    let mut i: usize = 0;
    assert(args.len() == args@.len());
    while i < args.len()
        invariant
            views == texts(args@),
            args@.len() == args.len(),
            i <= args@.len(),
            parsed_from(views, i as int, o@) == parsed_from(views, 0, no_options()),
        decreases args@.len() - i,
    {
        let a = args[i].as_str();
        assert(views[i as int] == a@);
        if set_flag(&mut o, a) {
            i += 1;
            continue;
        }
        if same_text(a, "--help") || same_text(a, "-h") {
            return Parsed::Help;
        }
        let next: usize = i + 1;
        let ghost before = o@;
        if same_text(a, "--offline-code") {
            o.offline_code = arg(args, next);
            assert(o@ =~= OptionsView { offline_code: arg_at(views, i + 1), ..before });
        } else if same_text(a, "--offline-session") {
            o.offline_session = arg(args, next);
            assert(o@ =~= OptionsView { offline_session: arg_at(views, i + 1), ..before });
        } else if same_text(a, "--ua") {
            let kind = match arg(args, next) {
                Some(s) => s,
                None => {
                    return Parsed::Refused {
                        message: "--ua 需要 pc 或 mobile".to_owned(),
                        with_help: false,
                    };
                },
            };
            if !same_text(&kind, "pc") && !same_text(&kind, "mobile") {
                return Parsed::Refused {
                    message: "--ua 需要 pc 或 mobile".to_owned(),
                    with_help: false,
                };
            }
            o.ua = kind;
            assert(o@ =~= OptionsView { ua: views[i + 1], ..before });
        } else if same_text(a, "--adapter") {
            o.adapter = arg_or_none(args, next);
            assert(o@ =~= OptionsView { adapter: arg_or_empty(views, i + 1), ..before });
        } else if same_text(a, "--source") {
            let ip = match arg(args, next) {
                Some(s) => read_address(&s),
                None => None,
            };
            if ip.is_none() {
                return Parsed::Refused {
                    message: "--source 需要合法 IPv4 地址".to_owned(),
                    with_help: false,
                };
            }
            o.source = ip;
            assert(o@ =~= OptionsView { source: address_in(views[i + 1]), ..before });
        } else if same_text(a, "--username") {
            o.username = arg_or_none(args, next);
            assert(o@ =~= OptionsView { username: arg_or_empty(views, i + 1), ..before });
        } else if same_text(a, "--password") {
            o.password = arg_or_none(args, next);
            assert(o@ =~= OptionsView { password: arg_or_empty(views, i + 1), ..before });
        } else if same_text(a, "--portal") {
            o.portal = arg_or_none(args, next);
            assert(o@ =~= OptionsView { portal: arg_or_empty(views, i + 1), ..before });
        } else {
            return Parsed::Refused { message: join2("未知参数: ", a), with_help: true };
        }
        assert(parsed_from(views, i as int, before) == parsed_from(views, i + 2, o@));
        assert(next >= views.len() ==> parsed_from(views, i + 2, o@) == parsed_from(
            views,
            next as int,
            o@,
        ));
        i = if next < args.len() {
            next + 1
        } else {
            next
        };
    }
    Parsed::Run(o)
}

// ---------------------------------------------------------------------------
// What to do
// ---------------------------------------------------------------------------

/// What is to be done.
#[derive(Debug, Clone, Copy, PartialEq, Eq, Structural)]
pub enum Task {
    Forget,
    ListAdapters,
    DetectPortal,
    Check,
    ListOnline,
    Offline,
    Login,
}

/// What is to be done: where several things are asked for, the first of this list.
pub open spec fn task_of(o: OptionsView) -> Task {
    if o.forget {
        Task::Forget
    } else if o.list {
        Task::ListAdapters
    } else if o.detect_portal {
        Task::DetectPortal
    } else if o.check {
        Task::Check
    } else if o.list_online {
        Task::ListOnline
    } else if o.offline {
        Task::Offline
    } else {
        Task::Login
    }
}

/// A line for the output or for the error output.
#[derive(Debug)]
pub enum Say {
    Out(String),
    Error(String),
}

/// A line for the output or for the error output, as plain values.
#[verifier::ext_equal]
pub enum SayView {
    Out(Seq<char>),
    Error(Seq<char>),
}

impl View for Say {
    type V = SayView;

    open spec fn view(&self) -> SayView {
        match self {
            Say::Out(s) => SayView::Out(s@),
            Say::Error(s) => SayView::Error(s@),
        }
    }
}

/// The address to send from, and what to say of it; or why there is none.
pub open spec fn source_of(o: OptionsView, adapters: Seq<AdapterView>) -> Result<
    (Option<Ipv4>, Option<SayView>),
    Seq<char>,
> {
    if o.source is Some {
        Ok((o.source, None))
    } else if o.adapter.len() > 0 {
        match adapter_ip(adapters, o.adapter) {
            Some(ip) => Ok((Some(ip), None)),
            None => Err("!! 网卡 \""@ + o.adapter + "\" 未找到或没有 IPv4 地址"@),
        }
    } else {
        match guessed_adapter(adapters) {
            Some(i) => Ok(
                (
                    Some(adapters[i].ipv4[0]),
                    Some(
                        SayView::Out(
                            "自动选择网卡: "@ + adapters[i].name + " ("@ + ip_text(
                                adapters[i].ipv4[0],
                            ) + ")"@,
                        ),
                    ),
                ),
            ),
            None => Ok(
                (
                    None,
                    Some(
                        SayView::Error(
                            "警告: 未自动找到校园网段(10.200/10.202)网卡, 将使用系统默认路由"@,
                        ),
                    ),
                ),
            ),
        }
    }
}

/// The address of the portal to use: the one that is given, or else the one that is kept.
pub open spec fn portal_of(given: Seq<char>, kept: Seq<char>) -> Seq<char> {
    if trim(given).len() == 0 {
        kept
    } else {
        given
    }
}

/// The account and the password to sign in with: those that are given, or else those that
/// are kept. A password that is asked for is taken from what was typed. There are none
/// where either is empty.
pub open spec fn credentials_of(
    o: OptionsView,
    kept_user: Seq<char>,
    kept_password: Option<Seq<char>>,
    typed: Seq<char>,
) -> Option<(Seq<char>, Seq<char>)> {
    let user = if o.username.len() == 0 {
        kept_user
    } else {
        o.username
    };
    let password = if o.ask_password {
        trim(typed)
    } else if o.password.len() == 0 {
        match kept_password {
            Some(p) => p,
            None => Seq::empty(),
        }
    } else {
        o.password
    };
    if user.len() == 0 || password.len() == 0 {
        None
    } else {
        Some((user, password))
    }
}

/// The credentials are to be kept: the login ended well, and it was asked for.
pub open spec fn keeps(o: OptionsView, ok: bool) -> bool {
    ok && o.save
}

/// What is kept after a login. Where the credentials are not to be kept, those that were
/// kept before stay.
pub open spec fn kept_after_login(
    o: OptionsView,
    ok: bool,
    d: DataView,
    username: Seq<char>,
    password: Seq<char>,
    sealed: Option<Seq<u8>>,
) -> DataView {
    if keeps(o, ok) {
        credentials_kept(d, username, Some(password), sealed, true, o.ua, o.adapter)
    } else {
        d
    }
}

/// What to say of keeping the credentials after a login.
pub open spec fn keep_words(
    o: OptionsView,
    ok: bool,
    password: Seq<char>,
    sealed: Option<Seq<u8>>,
) -> Option<Seq<char>> {
    if !keeps(o, ok) {
        None
    } else if keeping_fails(Some(password), sealed, true) {
        Some("!! 保存账号失败: "@ + "CryptProtectData 失败"@)
    } else {
        Some("账号信息已加密保存(DPAPI)"@)
    }
}

/// The adapter of this device: the one that is named, or else the one to guess.
pub open spec fn own_adapter_of(o: OptionsView, adapters: Seq<AdapterView>) -> Option<int> {
    if o.adapter.len() > 0 {
        first_where(adapters, adapter_named(o.adapter), 0)
    } else {
        guessed_adapter(adapters)
    }
}

impl Options {
    /// What is to be done: where several things are asked for, one comes before the other.
    pub fn task(&self) -> (r: Task)
        ensures
            r == task_of(self@),
    {
        if self.forget {
            Task::Forget
        } else if self.list {
            Task::ListAdapters
        } else if self.detect_portal {
            Task::DetectPortal
        } else if self.check {
            Task::Check
        } else if self.list_online {
            Task::ListOnline
        } else if self.offline {
            Task::Offline
        } else {
            Task::Login
        }
    }

    /// The address to send from, and what to say of it; or why there is none.
    pub fn choose_source(&self, adapters: &[Adapter]) -> (r: Result<
        (Option<Ipv4>, Option<Say>),
        String,
    >)
        ensures
            match source_of(self@, adapters_view(adapters@)) {
                Ok((ip, say)) => r matches Ok((i, s)) && i == ip && match (s, say) {
                    (Some(x), Some(y)) => x@ == y,
                    (None, None) => true,
                    _ => false,
                },
                Err(e) => r matches Err(m) && m@ == e,
            },
    {
        if self.source.is_some() {
            return Ok((self.source, None));
        }
        if !self.adapter.as_str().is_empty() {
            return match resolve_adapter_ip(adapters, &self.adapter) {
                Some(ip) => Ok((Some(ip), None)),
                None => Err(
                    join3("!! 网卡 \"", &self.adapter, "\" 未找到或没有 IPv4 地址"),
                ),
            };
        }
        proof {
            let views = adapters_view(adapters@);
            lemma_first_where(views, campus_adapter(), 0);
            lemma_first_where(views, wireless_adapter(), 0);
        }
        match guess_campus_adapter(adapters) {
            Some(a) => {
                let ip = a.ipv4[0];
                let line = join5("自动选择网卡: ", &a.name, " (", &ip.text(), ")");
                Ok((Some(ip), Some(Say::Out(line))))
            },
            None => Ok(
                (
                    None,
                    Some(
                        Say::Error(
                            "警告: 未自动找到校园网段(10.200/10.202)网卡, 将使用系统默认路由".to_owned(),
                        ),
                    ),
                ),
            ),
        }
    }

    /// The address of the portal to use: the one that is given, or else the one that is
    /// kept.
    pub fn choose_portal(&self, kept: &str) -> (r: String)
        ensures
            r@ == portal_of(self@.portal, kept@),
    {
        if is_blank(&self.portal) {
            kept.to_owned()
        } else {
            self.portal.as_str().to_owned()
        }
    }

    /// The address of the portal to keep: one that is given is kept from then on.
    pub fn portal_to_keep(&self) -> (r: Option<&str>)
        ensures
            match r {
                Some(p) => trim(self@.portal).len() > 0 && p@ == self@.portal,
                None => trim(self@.portal).len() == 0,
            },
    {
        if is_blank(&self.portal) {
            None
        } else {
            Some(self.portal.as_str())
        }
    }

    /// The base of the portal to keep after it was found: only where that was asked for.
    pub fn base_to_keep<'a>(&self, found: Option<&'a str>) -> (r: Option<&'a str>)
        ensures
            r == (if self.save_portal {
                found
            } else {
                None
            }),
    {
        if self.save_portal {
            found
        } else {
            None
        }
    }

    /// The account and the password to sign in with. `kept_password` is there where one is
    /// kept and may be used; `typed` is the line that was typed where a password is asked
    /// for.
    pub fn choose_credentials(
        &self,
        kept_user: &str,
        kept_password: Option<&str>,
        typed: &str,
    ) -> (r: Option<(String, String)>)
        ensures
            ({
                let kept = match kept_password {
                    Some(p) => Some(p@),
                    None => None,
                };
                match credentials_of(self@, kept_user@, kept, typed@) {
                    Some((user, password)) => r matches Some((u, p)) && u@ == user && p@
                        == password,
                    None => r is None,
                }
            }),
    {
        let user = if self.username.as_str().is_empty() {
            kept_user.to_owned()
        } else {
            self.username.as_str().to_owned()
        };
        let password = if self.ask_password {
            trim_text(typed)
        } else if self.password.as_str().is_empty() {
            match kept_password {
                Some(p) => p.to_owned(),
                None => String::new(),
            }
        } else {
            self.password.as_str().to_owned()
        };
        if user.as_str().is_empty() || password.as_str().is_empty() {
            None
        } else {
            Some((user, password))
        }
    }

    /// Whether the credentials are to be kept after a login.
    pub fn keeps_credentials(&self, ok: bool) -> (r: bool)
        ensures
            r == keeps(self@, ok),
    {
        ok && self.save
    }

    /// Keeps the credentials after a login, where they are to be kept, and says what came of
    /// it. Otherwise what was kept before stays. `sealed` is the password as the operating
    /// system sealed it.
    pub fn keep_credentials(
        &self,
        store: &mut Store,
        ok: bool,
        username: &str,
        password: &str,
        sealed: Option<&[u8]>,
    ) -> (r: Option<String>)
        requires
            sealed matches Some(bytes) ==> fits_encoder(bytes@.len()),
        ensures
            final(store).data@ == kept_after_login(
                self@,
                ok,
                old(store).data@,
                username@,
                password@,
                bytes_view(sealed),
            ),
            opt_text(r) == keep_words(self@, ok, password@, bytes_view(sealed)),
            !keeps(self@, ok) ==> *final(store) == *old(store),
            keeps(self@, ok) ==> final(store).dirty == (old(store).dirty || !keeping_fails(
                Some(password@),
                bytes_view(sealed),
                true,
            )),
    {
        if !self.keeps_credentials(ok) {
            return None;
        }
        match store.set_credentials(
            username,
            Some(password),
            sealed,
            true,
            &self.ua,
            &self.adapter,
        ) {
            Ok(()) => Some("账号信息已加密保存(DPAPI)".to_owned()),
            Err(e) => Some(join2("!! 保存账号失败: ", &e)),
        }
    }

    /// The adapter of this device: the one that is named, or else the one to guess.
    pub fn own_adapter<'a>(&self, adapters: &'a [Adapter]) -> (r: Option<&'a Adapter>)
        ensures
            match own_adapter_of(self@, adapters_view(adapters@)) {
                Some(i) => r == Some(&adapters@[i]),
                None => r is None,
            },
    {
        if self.adapter.as_str().is_empty() {
            guess_campus_adapter(adapters)
        } else {
            find_adapter(adapters, &self.adapter)
        }
    }
}

// ---------------------------------------------------------------------------
// What to say in the end
// ---------------------------------------------------------------------------

/// The exit status that a login ends with: 0 where the network is open, 2 where the portal
/// is not known, 3 where the account is in use, and 1 otherwise.
pub open spec fn exit_of(code: LoginCode) -> int {
    match code {
        LoginCode::Already | LoginCode::Success => 0,
        LoginCode::NoPortal => 2,
        LoginCode::Conflict => 3,
        _ => 1,
    }
}

/// How the command line ends without a login, a search or an errand.
#[derive(Debug, Clone, Copy, PartialEq, Eq, Structural)]
pub enum EarlyEnd {
    /// The help was asked for.
    Helped,
    /// The arguments were refused.
    Refused,
    /// The account and the password were forgotten.
    Forgotten,
    /// The adapters were listed.
    Listed,
    /// There is no address to send from.
    NoSource,
    /// The account or the password is missing.
    NoCredentials,
    /// The captcha could not be shown.
    NoCaptcha,
}

/// The exit status of such an end: 0 where what was asked for was done, 1 otherwise.
pub fn early_exit(end: EarlyEnd) -> (r: i32)
    ensures
        r == (match end {
            EarlyEnd::Helped | EarlyEnd::Forgotten | EarlyEnd::Listed => 0int,
            EarlyEnd::Refused | EarlyEnd::NoSource | EarlyEnd::NoCredentials
            | EarlyEnd::NoCaptcha => 1,
        }),
{
    match end {
        EarlyEnd::Helped | EarlyEnd::Forgotten | EarlyEnd::Listed => 0,
        EarlyEnd::Refused | EarlyEnd::NoSource | EarlyEnd::NoCredentials
            | EarlyEnd::NoCaptcha => 1,
    }
}

/// What to say of how a login ended.
pub open spec fn login_words(code: LoginCode, detail: Seq<char>) -> Seq<Seq<char>> {
    let none = Seq::<Seq<char>>::empty();
    match code {
        LoginCode::Already => none.push("结论: 本机已在线, 无需操作"@),
        LoginCode::Success => none.push("结论: 认证成功"@),
        LoginCode::NoPortal => none.push(
            "结论: 未探测到门户——本机可能不在校园网, 或该校 AC 不用 302 劫持"@,
        ).push(
            "手动获取门户地址: 浏览器打开 http://www.msftconnecttest.com/connecttest.txt ,"@,
        ).push("地址栏会跳到校园网认证页, 把整条地址复制下来, 然后:"@).push(
            "  campus-auth-cli.exe --portal '粘贴的地址' --username 账号 --ask-password"@,
        ).push("(用 --save-portal 可写入数据文件, 以后自动使用)"@),
        LoginCode::Conflict => none.push(
            "结论: 槽位被占用, 需到自助管理界面手动下线后重试 ("@ + SELF_SERVICE_URL@
                + ")"@,
        ),
        LoginCode::BadPassword => none.push("结论: 密码错误"@),
        _ => none.push("结论: 认证失败 ("@ + detail + ")"@),
    }
}

/// What to say of how a login ended, and the exit status.
pub fn login_report(code: LoginCode, detail: &str) -> (r: (Vec<String>, i32))
    ensures
        texts(r.0@) == login_words(code, detail@),
        r.1 == exit_of(code),
{
    let mut lines: Vec<String> = Vec::new();
    assert(texts(lines@) == Seq::<Seq<char>>::empty());
    let exit: i32 = match code {
        LoginCode::Already => {
            note(&mut lines, "结论: 本机已在线, 无需操作".to_owned());
            0
        },
        LoginCode::Success => {
            note(&mut lines, "结论: 认证成功".to_owned());
            0
        },
        LoginCode::NoPortal => {
            note(
                &mut lines,
                "结论: 未探测到门户——本机可能不在校园网, 或该校 AC 不用 302 劫持".to_owned(),
            );
            note(
                &mut lines,
                "手动获取门户地址: 浏览器打开 http://www.msftconnecttest.com/connecttest.txt ,".to_owned(),
            );
            note(
                &mut lines,
                "地址栏会跳到校园网认证页, 把整条地址复制下来, 然后:".to_owned(),
            );
            note(
                &mut lines,
                "  campus-auth-cli.exe --portal '粘贴的地址' --username 账号 --ask-password".to_owned(),
            );
            note(
                &mut lines,
                "(用 --save-portal 可写入数据文件, 以后自动使用)".to_owned(),
            );
            2
        },
        LoginCode::Conflict => {
            note(
                &mut lines,
                join3(
                    "结论: 槽位被占用, 需到自助管理界面手动下线后重试 (",
                    SELF_SERVICE_URL,
                    ")",
                ),
            );
            3
        },
        LoginCode::BadPassword => {
            note(&mut lines, "结论: 密码错误".to_owned());
            1
        },
        LoginCode::Unreachable => {
            note(&mut lines, join3("结论: 认证失败 (", detail, ")"));
            1
        },
        LoginCode::Failure => {
            note(&mut lines, join3("结论: 认证失败 (", detail, ")"));
            1
        },
    };
    (lines, exit)
}

/// What to say of the search for the portal.
pub open spec fn detect_words(found: Option<Seq<char>>) -> Seq<Seq<char>> {
    let none = Seq::<Seq<char>>::empty();
    match found {
        Some(base) => none.push("发现门户: "@ + base).push(
            "(登录页 GET 正常, 可把它填进「门户地址」或加 --save-portal 保存)"@,
        ),
        None => none.push("未发现门户(没有劫持响应, 也可能本机已在线)"@).push(
            "手动获取: 浏览器打开 http://www.msftconnecttest.com/connecttest.txt,"@,
        ).push(
            "把地址栏跳转后的地址整条抄下来, 用 --portal '地址' 或填进界面「门户地址」框。"@,
        ),
    }
}

/// What to say of the search for the portal, and the exit status: 0 where it was found, 2
/// where it was not.
pub fn detect_report(found: Option<&str>) -> (r: (Vec<String>, i32))
    ensures
        texts(r.0@) == detect_words(
            match found {
                Some(s) => Some(s@),
                None => None,
            },
        ),
        r.1 == (if found is Some {
            0int
        } else {
            2
        }),
{
    let mut lines: Vec<String> = Vec::new();
    assert(texts(lines@) == Seq::<Seq<char>>::empty());
    match found {
        Some(base) => {
            note(&mut lines, join2("发现门户: ", base));
            note(
                &mut lines,
                "(登录页 GET 正常, 可把它填进「门户地址」或加 --save-portal 保存)".to_owned(),
            );
            (lines, 0)
        },
        None => {
            note(&mut lines, "未发现门户(没有劫持响应, 也可能本机已在线)".to_owned());
            note(
                &mut lines,
                "手动获取: 浏览器打开 http://www.msftconnecttest.com/connecttest.txt,".to_owned(),
            );
            note(
                &mut lines,
                "把地址栏跳转后的地址整条抄下来, 用 --portal '地址' 或填进界面「门户地址」框。".to_owned(),
            );
            (lines, 2)
        },
    }
}

/// What to say of the connectivity test, and the exit status: 0 where the network is open,
/// 1 otherwise.
pub fn check_report(open: Option<bool>) -> (r: (&'static str, i32))
    ensures
        match open {
            Some(true) => r.0@ == "结论: 已联网(已认证)"@ && r.1 == 0,
            Some(false) => r.0@ == "结论: 未认证(被门户劫持)"@ && r.1 == 1,
            None => r.0@ == "结论: 无法判定(网络不通?)"@ && r.1 == 1,
        },
{
    match open {
        Some(true) => ("结论: 已联网(已认证)", 0),
        Some(false) => ("结论: 未认证(被门户劫持)", 1),
        None => ("结论: 无法判定(网络不通?)", 1),
    }
}

/// `s` with spaces behind it up to `width` characters.
pub open spec fn filled(s: Seq<char>, width: nat) -> Seq<char> {
    if s.len() >= width {
        s
    } else {
        s + Seq::new((width - s.len()) as nat, |i: int| ' ')
    }
}

/// An adapter as a line of the list.
pub open spec fn adapter_words(a: AdapterView) -> Seq<char> {
    filled(a.name, 14) + " "@ + filled(ips_text(a.ipv4, ","@), 18) + " "@ + filled(a.mac, 20) + " "@
        + filled(a.status, 8) + " "@ + a.desc
}

/// Appends a text with spaces behind it up to `width` characters, and one more.
fn push_filled(out: &mut String, s: &str, width: usize)
    ensures
        final(out)@ == old(out)@ + filled(s@, width as nat) + " "@,
{
    let len = chars_of(s).len();
    push_text(out, s);
    let ghost start = out@;
    let mut i: usize = len;
    while i < width
        invariant
            len <= i,
            i <= width || i == len,
            out@ == start + Seq::new((i - len) as nat, |k: int| ' '),
        decreases width - i,
    {
        out.push(' ');
        i += 1;
        assert(out@ == start + Seq::new((i - len) as nat, |k: int| ' '));
    }
    assert(out@ == old(out)@ + filled(s@, width as nat));
    push_text(out, " ");
}

/// An adapter as a line of the list.
pub fn adapter_line(a: &Adapter) -> (r: String)
    ensures
        r@ == adapter_words(a@),
{
    let mut out = String::new();
    push_filled(&mut out, &a.name, 14);
    assert(out@ == filled(a@.name, 14) + " "@);
    push_filled(&mut out, &join_ips(&a.ipv4, ","), 18);
    push_filled(&mut out, &a.mac, 20);
    push_filled(&mut out, &a.status, 8);
    push_text(&mut out, &a.desc);
    out
}

// ---------------------------------------------------------------------------
// Laws
// ---------------------------------------------------------------------------

/// A login that ends well ends with status 0, and no other does.
pub proof fn law_exit_status_tells_success(code: LoginCode)
    ensures
        (exit_of(code) == 0) == (code == LoginCode::Already || code == LoginCode::Success),
        0 <= exit_of(code) <= 3,
{
}

/// Credentials are kept after a login only where it ended well and it was asked for;
/// otherwise those that were kept before stay as they were.
pub proof fn law_credentials_are_kept_on_success_alone(
    o: OptionsView,
    ok: bool,
    d: DataView,
    username: Seq<char>,
    password: Seq<char>,
    sealed: Option<Seq<u8>>,
)
    ensures
        !(ok && o.save) ==> kept_after_login(o, ok, d, username, password, sealed) == d,
        ok && o.save ==> kept_after_login(o, ok, d, username, password, sealed).username
            == username,
{
}

/// A portal that is given takes the place of the one that is kept.
pub proof fn law_given_portal_comes_first(given: Seq<char>, kept: Seq<char>)
    ensures
        trim(given).len() > 0 ==> portal_of(given, kept) == given,
        trim(given).len() == 0 ==> portal_of(given, kept) == kept,
{
}

} // verus!
