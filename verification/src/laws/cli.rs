//! What the command line asks for, and what it ends with.
use vstd::prelude::*;
use crate::cli::{
    adapter_words, address_in, credentials_of, detect_words, exit_of, filled, keep_words,
    kept_after_login, login_words, no_options, own_adapter_of, parsed_from, portal_of, source_of,
    task_of, OptionsView, ParsedView, SayView, Task,
};
use crate::common::SELF_SERVICE_URL;
use crate::crypto::base64_text;
use crate::ipv4::{ip_text, law_notation_is_unique, Ipv4};
use crate::laws::text::{all_white, is_tight, law_trimming_drops_white_space};
use crate::login::LoginCode;
use crate::net::{adapter_ip, guessed_adapter, ips_text, AdapterView};
use crate::store::DataView;
use crate::text::dec;

verus! {

// ---------------------------------------------------------------------------
// Arguments
// ---------------------------------------------------------------------------

/// The names of the arguments differ.
proof fn lemma_names_differ()
    ensures
        "--check"@.len() == 7,
        "--list-adapters"@.len() == 15 && "--list-adapters"@[2] == 'l',
        "--save"@.len() == 6 && "--save"@[2] == 's',
        "--forget"@.len() == 8 && "--forget"@[2] == 'f',
        "--ask-password"@.len() == 14 && "--ask-password"@[2] == 'a',
        "--offline"@.len() == 9 && "--offline"@[2] == 'o',
        "--list-online"@.len() == 13 && "--list-online"@[2] == 'l',
        "--detect-portal"@.len() == 15 && "--detect-portal"@[2] == 'd',
        "--save-portal"@.len() == 13 && "--save-portal"@[2] == 's',
        "--help"@.len() == 6 && "--help"@[2] == 'h',
        "-h"@.len() == 2,
        "--offline-code"@.len() == 14 && "--offline-code"@[2] == 'o',
        "--offline-session"@.len() == 17,
        "--ua"@.len() == 4,
        "--adapter"@.len() == 9 && "--adapter"@[2] == 'a',
        "--source"@.len() == 8 && "--source"@[2] == 's',
        "--username"@.len() == 10 && "--username"@[2] == 'u',
        "--password"@.len() == 10 && "--password"@[2] == 'p',
        "--portal"@.len() == 8 && "--portal"@[2] == 'p',
{
    reveal_strlit("--check");
    reveal_strlit("--list-adapters");
    reveal_strlit("--save");
    reveal_strlit("--forget");
    reveal_strlit("--ask-password");
    reveal_strlit("--offline");
    reveal_strlit("--list-online");
    reveal_strlit("--detect-portal");
    reveal_strlit("--save-portal");
    reveal_strlit("--help");
    reveal_strlit("-h");
    reveal_strlit("--offline-code");
    reveal_strlit("--offline-session");
    reveal_strlit("--ua");
    reveal_strlit("--adapter");
    reveal_strlit("--source");
    reveal_strlit("--username");
    reveal_strlit("--password");
    reveal_strlit("--portal");
}

/// Without arguments a computer is signed in, and nothing else is asked for.
pub proof fn law_nothing_is_asked_for_at_first(args: Seq<Seq<char>>)
    requires
        args.len() == 0,
    ensures
        ({
            let o = no_options();
            &&& parsed_from(args, 0, o) == ParsedView::Run(o)
            &&& o.username.len() == 0 && o.password.len() == 0 && o.adapter.len() == 0
            &&& o.portal.len() == 0 && o.ua == "pc"@ && o.source is None
            &&& o.offline_code is None && o.offline_session is None
            &&& !o.ask_password && !o.check && !o.list && !o.save && !o.forget && !o.offline
            &&& !o.list_online && !o.detect_portal && !o.save_portal
        }),
{
}

/// An argument that stands alone asks for one thing, and leaves the rest as it is.
pub proof fn law_argument_asks_for_one_thing(args: Seq<Seq<char>>, i: int, o: OptionsView)
    requires
        0 <= i < args.len(),
    ensures
        args[i] == "--check"@ ==> parsed_from(args, i, o) == parsed_from(
            args,
            i + 1,
            OptionsView { check: true, ..o },
        ),
        args[i] == "--list-adapters"@ ==> parsed_from(args, i, o) == parsed_from(
            args,
            i + 1,
            OptionsView { list: true, ..o },
        ),
        args[i] == "--save"@ ==> parsed_from(args, i, o) == parsed_from(
            args,
            i + 1,
            OptionsView { save: true, ..o },
        ),
        args[i] == "--forget"@ ==> parsed_from(args, i, o) == parsed_from(
            args,
            i + 1,
            OptionsView { forget: true, ..o },
        ),
        args[i] == "--ask-password"@ ==> parsed_from(args, i, o) == parsed_from(
            args,
            i + 1,
            OptionsView { ask_password: true, ..o },
        ),
        args[i] == "--offline"@ ==> parsed_from(args, i, o) == parsed_from(
            args,
            i + 1,
            OptionsView { offline: true, ..o },
        ),
        args[i] == "--list-online"@ ==> parsed_from(args, i, o) == parsed_from(
            args,
            i + 1,
            OptionsView { list_online: true, ..o },
        ),
        args[i] == "--detect-portal"@ ==> parsed_from(args, i, o) == parsed_from(
            args,
            i + 1,
            OptionsView { detect_portal: true, ..o },
        ),
        args[i] == "--save-portal"@ ==> parsed_from(args, i, o) == parsed_from(
            args,
            i + 1,
            OptionsView { save_portal: true, ..o },
        ),
        args[i] == "--help"@ || args[i] == "-h"@ ==> parsed_from(args, i, o) == ParsedView::Help,
{
    lemma_names_differ();
}

/// An argument with a value sets one thing to the value, letter for letter, and leaves the
/// rest as it is.
pub proof fn law_value_is_taken_as_written(
    args: Seq<Seq<char>>,
    i: int,
    o: OptionsView,
    value: Seq<char>,
)
    requires
        0 <= i && i + 1 < args.len(),
        args[i + 1] == value,
    ensures
        args[i] == "--username"@ ==> parsed_from(args, i, o) == parsed_from(
            args,
            i + 2,
            OptionsView { username: value, ..o },
        ),
        args[i] == "--password"@ ==> parsed_from(args, i, o) == parsed_from(
            args,
            i + 2,
            OptionsView { password: value, ..o },
        ),
        args[i] == "--adapter"@ ==> parsed_from(args, i, o) == parsed_from(
            args,
            i + 2,
            OptionsView { adapter: value, ..o },
        ),
        args[i] == "--portal"@ ==> parsed_from(args, i, o) == parsed_from(
            args,
            i + 2,
            OptionsView { portal: value, ..o },
        ),
        args[i] == "--offline-code"@ ==> parsed_from(args, i, o) == parsed_from(
            args,
            i + 2,
            OptionsView { offline_code: Some(value), ..o },
        ),
        args[i] == "--offline-session"@ ==> parsed_from(args, i, o) == parsed_from(
            args,
            i + 2,
            OptionsView { offline_session: Some(value), ..o },
        ),
        args[i] == "--ua"@ && (value == "pc"@ || value == "mobile"@) ==> parsed_from(args, i, o)
            == parsed_from(args, i + 2, OptionsView { ua: value, ..o }),
        args[i] == "--ua"@ && value != "pc"@ && value != "mobile"@ ==> parsed_from(
            args,
            i,
            o,
        ) is Refused,
{
    lemma_names_differ();
}

/// An argument that lacks its value sets nothing, or is refused.
pub proof fn law_value_may_be_missing(args: Seq<Seq<char>>, i: int, o: OptionsView)
    requires
        0 <= i && i + 1 == args.len(),
    ensures
        args[i] == "--username"@ ==> parsed_from(args, i, o) == ParsedView::Run(
            OptionsView { username: Seq::empty(), ..o },
        ),
        args[i] == "--password"@ ==> parsed_from(args, i, o) == ParsedView::Run(
            OptionsView { password: Seq::empty(), ..o },
        ),
        args[i] == "--adapter"@ ==> parsed_from(args, i, o) == ParsedView::Run(
            OptionsView { adapter: Seq::empty(), ..o },
        ),
        args[i] == "--portal"@ ==> parsed_from(args, i, o) == ParsedView::Run(
            OptionsView { portal: Seq::empty(), ..o },
        ),
        args[i] == "--offline-code"@ ==> parsed_from(args, i, o) == ParsedView::Run(
            OptionsView { offline_code: None, ..o },
        ),
        args[i] == "--offline-session"@ ==> parsed_from(args, i, o) == ParsedView::Run(
            OptionsView { offline_session: None, ..o },
        ),
        args[i] == "--ua"@ ==> parsed_from(args, i, o) is Refused,
        args[i] == "--source"@ ==> parsed_from(args, i, o) is Refused,
{
    lemma_names_differ();
    reveal_with_fuel(parsed_from, 2);
}

/// An address is taken in the dotted decimal notation, and nothing else is.
pub proof fn law_source_is_an_address(
    args: Seq<Seq<char>>,
    i: int,
    o: OptionsView,
    ip: Ipv4,
)
    requires
        0 <= i && i + 1 < args.len(),
        args[i] == "--source"@,
    ensures
        args[i + 1] == dec(ip.a as nat) + "."@ + dec(ip.b as nat) + "."@ + dec(ip.c as nat) + "."@
            + dec(ip.d as nat) ==> parsed_from(args, i, o) == parsed_from(
            args,
            i + 2,
            OptionsView { source: Some(ip), ..o },
        ),
        (forall|x: Ipv4| #[trigger] ip_text(x) != args[i + 1]) ==> parsed_from(
            args,
            i,
            o,
        ) is Refused,
{
    lemma_names_differ();
    law_address_has_four_numbers(ip);
    law_address_comes_back(ip);
}

/// An address is written as its four numbers, with dots between them.
pub proof fn law_address_has_four_numbers(ip: Ipv4)
    ensures
        ip_text(ip) == dec(ip.a as nat) + "."@ + dec(ip.b as nat) + "."@ + dec(ip.c as nat) + "."@
            + dec(ip.d as nat),
{
    assert(ip_text(ip) =~= dec(ip.a as nat) + "."@ + dec(ip.b as nat) + "."@ + dec(ip.c as nat)
        + "."@ + dec(ip.d as nat));
}

/// An address that is written is read again.
pub proof fn law_address_comes_back(ip: Ipv4)
    ensures
        address_in(ip_text(ip)) == Some(ip),
{
    let found = choose|x: Ipv4| ip_text(ip) == #[trigger] ip_text(x);
    law_notation_is_unique(ip, found);
}

/// An argument that has a meaning.
pub open spec fn is_argument(s: Seq<char>) -> bool {
    s == "--check"@ || s == "--list-adapters"@ || s == "--save"@ || s == "--forget"@ || s
        == "--ask-password"@ || s == "--offline"@ || s == "--list-online"@ || s
        == "--detect-portal"@ || s == "--save-portal"@ || s == "--help"@ || s == "-h"@ || s
        == "--offline-code"@ || s == "--offline-session"@ || s == "--ua"@ || s == "--adapter"@ || s
        == "--source"@ || s == "--username"@ || s == "--password"@ || s == "--portal"@
}

/// Any other argument is refused by its name, and the help is shown.
pub proof fn law_unknown_argument_is_refused(args: Seq<Seq<char>>, i: int, o: OptionsView)
    requires
        0 <= i < args.len(),
        !is_argument(args[i]),
    ensures
        parsed_from(args, i, o) == (ParsedView::Refused {
            message: "未知参数: "@ + args[i],
            with_help: true,
        }),
{
}

// ---------------------------------------------------------------------------
// What to do
// ---------------------------------------------------------------------------

/// Each thing that is asked for is done, where nothing that comes before it is asked for
/// too; where nothing is, the device is signed in.
pub proof fn law_first_task_is_done(o: OptionsView)
    ensures
        task_of(o) == Task::Forget <==> o.forget,
        task_of(o) == Task::ListAdapters <==> o.list && !o.forget,
        task_of(o) == Task::DetectPortal <==> o.detect_portal && !o.list && !o.forget,
        task_of(o) == Task::Check <==> o.check && !o.detect_portal && !o.list && !o.forget,
        task_of(o) == Task::ListOnline <==> o.list_online && !o.check && !o.detect_portal
            && !o.list && !o.forget,
        task_of(o) == Task::Offline <==> o.offline && !o.list_online && !o.check
            && !o.detect_portal && !o.list && !o.forget,
        task_of(o) == Task::Login <==> !o.offline && !o.list_online && !o.check
            && !o.detect_portal && !o.list && !o.forget,
{
}

/// The address to send from is the one that is given; else that of the adapter that is
/// named, and without one nothing is done; else that of the adapter to guess, which is
/// told; and else the system's own.
pub proof fn law_source_is_chosen(o: OptionsView, adapters: Seq<AdapterView>)
    ensures
        o.source is Some ==> source_of(o, adapters) == Ok::<
            (Option<Ipv4>, Option<SayView>),
            Seq<char>,
        >((o.source, None)),
        o.source is None && o.adapter.len() > 0 ==> (match adapter_ip(adapters, o.adapter) {
            Some(ip) => source_of(o, adapters) == Ok::<
                (Option<Ipv4>, Option<SayView>),
                Seq<char>,
            >((Some(ip), None)),
            None => source_of(o, adapters) is Err,
        }),
        o.source is None && o.adapter.len() == 0 ==> (match guessed_adapter(adapters) {
            Some(i) => source_of(o, adapters) matches Ok((ip, Some(SayView::Out(line)))) && (ip
                == Some(adapters[i].ipv4[0]) && line == "自动选择网卡: "@ + adapters[i].name
                + " ("@ + ip_text(adapters[i].ipv4[0]) + ")"@),
            None => source_of(o, adapters) matches Ok((ip, Some(SayView::Error(_)))) && ip is None,
        }),
{
}

/// The adapter of this device is the one to guess, where none is named.
pub proof fn law_own_adapter_is_guessed(o: OptionsView, adapters: Seq<AdapterView>)
    requires
        o.adapter.len() == 0,
    ensures
        own_adapter_of(o, adapters) == guessed_adapter(adapters),
{
}

/// A portal that is given is used, and a blank one is not given.
pub proof fn law_portal_is_given_or_kept(
    before: Seq<char>,
    given: Seq<char>,
    after: Seq<char>,
    kept: Seq<char>,
)
    requires
        all_white(before),
        all_white(after),
        given.len() > 0,
        is_tight(given),
    ensures
        portal_of(before + given + after, kept) == before + given + after,
        portal_of(before, kept) == kept,
{
    let none = Seq::<char>::empty();
    law_trimming_drops_white_space(before, given, after);
    assert(before + none + none =~= before);
    law_trimming_drops_white_space(before, none, none);
}

/// The account and the password that are given are used, letter for letter; those that are
/// kept take the place of those that are not given.
pub proof fn law_credentials_are_given_or_kept(
    o: OptionsView,
    kept_user: Seq<char>,
    kept_password: Seq<char>,
    typed: Seq<char>,
)
    requires
        !o.ask_password,
        kept_user.len() > 0,
        kept_password.len() > 0,
    ensures
        credentials_of(o, kept_user, Some(kept_password), typed) == Some(
            (
                if o.username.len() > 0 {
                    o.username
                } else {
                    kept_user
                },
                if o.password.len() > 0 {
                    o.password
                } else {
                    kept_password
                },
            ),
        ),
        o.password.len() == 0 ==> credentials_of(o, kept_user, None, typed) is None,
        o.username.len() == 0 ==> credentials_of(
            o,
            Seq::empty(),
            Some(kept_password),
            typed,
        ) is None,
{
}

/// A password that is typed is used instead of any other, without the blanks around it.
pub proof fn law_typed_password_is_used(
    o: OptionsView,
    kept_user: Seq<char>,
    kept_password: Option<Seq<char>>,
    before: Seq<char>,
    password: Seq<char>,
    after: Seq<char>,
)
    requires
        o.ask_password,
        o.username.len() > 0,
        all_white(before),
        all_white(after),
        password.len() > 0,
        is_tight(password),
    ensures
        credentials_of(o, kept_user, kept_password, before + password + after) == Some(
            (o.username, password),
        ),
        credentials_of(o, kept_user, kept_password, before) is None,
{
    let none = Seq::<char>::empty();
    law_trimming_drops_white_space(before, password, after);
    assert(before + none + none =~= before);
    law_trimming_drops_white_space(before, none, none);
}

// ---------------------------------------------------------------------------
// What to say in the end
// ---------------------------------------------------------------------------

/// Each end has its status.
pub proof fn law_end_has_its_status(code: LoginCode)
    ensures
        code == LoginCode::Already ==> exit_of(code) == 0,
        code == LoginCode::Success ==> exit_of(code) == 0,
        code == LoginCode::NoPortal ==> exit_of(code) == 2,
        code == LoginCode::Conflict ==> exit_of(code) == 3,
        code == LoginCode::BadPassword ==> exit_of(code) == 1,
        code == LoginCode::Unreachable ==> exit_of(code) == 1,
        code == LoginCode::Failure ==> exit_of(code) == 1,
{
}

/// What is said of a login tells its end, and of one that failed the reason; what is said
/// of a search tells the portal.
pub proof fn law_words_tell_the_end(detail: Seq<char>, base: Seq<char>)
    ensures
        login_words(LoginCode::Already, detail) == seq!["结论: 本机已在线, 无需操作"@],
        login_words(LoginCode::Success, detail) == seq!["结论: 认证成功"@],
        login_words(LoginCode::BadPassword, detail) == seq!["结论: 密码错误"@],
        login_words(LoginCode::Conflict, detail) == seq![
            "结论: 槽位被占用, 需到自助管理界面手动下线后重试 ("@ + SELF_SERVICE_URL@ + ")"@,
        ],
        login_words(LoginCode::Failure, detail) == seq!["结论: 认证失败 ("@ + detail + ")"@],
        login_words(LoginCode::Unreachable, detail) == seq![
            "结论: 认证失败 ("@ + detail + ")"@,
        ],
        detect_words(Some(base)).len() == 2,
        detect_words(Some(base))[0] == "发现门户: "@ + base,
{
}

/// After a login that ended well, and where it was asked for, the account is kept with the
/// sealed password, the kind of device and the adapter; the rest stays as it was. Otherwise
/// nothing changes and nothing is said.
pub proof fn law_account_is_kept(
    o: OptionsView,
    ok: bool,
    d: DataView,
    username: Seq<char>,
    password: Seq<char>,
    sealed: Seq<u8>,
)
    requires
        password.len() > 0,
    ensures
        ok && o.save ==> kept_after_login(o, ok, d, username, password, Some(sealed)) == (
        DataView {
            username,
            password_dpapi: base64_text(sealed),
            save_password: true,
            ua: o.ua,
            adapter: o.adapter,
            portal_url: d.portal_url,
            log_lines: d.log_lines,
        }),
        ok && o.save ==> keep_words(o, ok, password, Some(sealed)) == Some(
            "账号信息已加密保存(DPAPI)"@,
        ),
        ok && o.save ==> keep_words(o, ok, password, None) == Some(
            "!! 保存账号失败: "@ + "CryptProtectData 失败"@,
        ),
        !ok || !o.save ==> kept_after_login(o, ok, d, username, password, Some(sealed)) == d
            && keep_words(o, ok, password, Some(sealed)) is None,
{
}

/// Nothing but spaces.
pub open spec fn is_spaces(s: Seq<char>) -> bool {
    forall|i: int| 0 <= i < s.len() ==> #[trigger] s[i] == ' '
}

/// Spaces fill a column up, behind the text; a text that is too long stays whole.
pub proof fn law_column_is_filled(s: Seq<char>, width: nat, spaces: Seq<char>)
    requires
        is_spaces(spaces),
    ensures
        s.len() + spaces.len() == width ==> filled(s, width) == s + spaces,
        s.len() >= width ==> filled(s, width) == s,
{
    if s.len() + spaces.len() == width {
        assert(filled(s, width) =~= s + spaces);
    }
}

/// A line of the list shows an adapter: its name, its addresses, its hardware address, its
/// state and what it is, in columns.
pub proof fn law_adapter_is_shown(
    a: AdapterView,
    s1: Seq<char>,
    s2: Seq<char>,
    s3: Seq<char>,
    s4: Seq<char>,
)
    requires
        is_spaces(s1) && a.name.len() + s1.len() == 14,
        is_spaces(s2) && ips_text(a.ipv4, ","@).len() + s2.len() == 18,
        is_spaces(s3) && a.mac.len() + s3.len() == 20,
        is_spaces(s4) && a.status.len() + s4.len() == 8,
    ensures
        adapter_words(a) == a.name + s1 + " "@ + ips_text(a.ipv4, ","@) + s2 + " "@ + a.mac + s3
            + " "@ + a.status + s4 + " "@ + a.desc,
{
    law_column_is_filled(a.name, 14, s1);
    law_column_is_filled(ips_text(a.ipv4, ","@), 18, s2);
    law_column_is_filled(a.mac, 20, s3);
    law_column_is_filled(a.status, 8, s4);
    assert(adapter_words(a) =~= a.name + s1 + " "@ + ips_text(a.ipv4, ","@) + s2 + " "@ + a.mac
        + s3 + " "@ + a.status + s4 + " "@ + a.desc);
}

/// Where no portal is known, what is said tells how to find its address by hand.
pub proof fn law_words_tell_how_to_find_the_portal(detail: Seq<char>)
    ensures
        login_words(LoginCode::NoPortal, detail) == seq![
            "结论: 未探测到门户——本机可能不在校园网, 或该校 AC 不用 302 劫持"@,
            "手动获取门户地址: 浏览器打开 http://www.msftconnecttest.com/connecttest.txt ,"@,
            "地址栏会跳到校园网认证页, 把整条地址复制下来, 然后:"@,
            "  campus-auth-cli.exe --portal '粘贴的地址' --username 账号 --ask-password"@,
            "(用 --save-portal 可写入数据文件, 以后自动使用)"@,
        ],
        detect_words(None) == seq![
            "未发现门户(没有劫持响应, 也可能本机已在线)"@,
            "手动获取: 浏览器打开 http://www.msftconnecttest.com/connecttest.txt,"@,
            "把地址栏跳转后的地址整条抄下来, 用 --portal '地址' 或填进界面「门户地址」框。"@,
        ],
{
}

} // verus!
