//! What the window selects, holds and says.
use vstd::prelude::*;
use crate::common::SELF_SERVICE_URL;
use crate::gui::{
    command_of, confirm_of, dp, feedback_of, first_line_shown, history_text, info_of, log_to_cut,
    named_exactly, named_wlan, opening_of, params_of, preselected, restored_line, verdict_line,
    Command, ParamsView, Sign, TaskParams,
};
use crate::ipv4::ip_text;
use crate::laws::net::law_first_campus_adapter_is_chosen;
use crate::laws::text::{
    all_white, is_free_of, is_tight, law_contained_or_free, law_trimming_drops_white_space,
};
use crate::login::LoginCode;
use crate::net::{campus_adapter, ips_text, is_campus_ip, on_campus, AdapterView};
use crate::text::{first_where, joined, lemma_first_where, lower, texts};

verus! {

// ---------------------------------------------------------------------------
// Controls
// ---------------------------------------------------------------------------

/// Each control asks for its own thing, whatever the notice; the list of adapters alone
/// asks only where its selection changed, and the others ask for nothing.
pub proof fn law_control_asks_for_its_own(code: u32, id: u32)
    ensures
        command_of(101, 1) == Command::ShowAdapter,
        code != 1 ==> command_of(101, code) == Command::Nothing,
        command_of(102, code) == Command::Refresh,
        command_of(106, code) == Command::TogglePassword,
        command_of(107, code) == Command::ToggleSave,
        command_of(108, code) == Command::ChooseComputer,
        command_of(109, code) == Command::ChoosePhone,
        command_of(110, code) == Command::Test,
        command_of(111, code) == Command::Login,
        command_of(112, code) == Command::History,
        command_of(113, code) == Command::ClearSaved,
        command_of(114, code) == Command::SelfService,
        command_of(118, code) == Command::DetectPortal,
        103 <= id <= 105 || 115 <= id <= 117 || id < 101 || id > 118 ==> command_of(id, code)
            == Command::Nothing,
{
}

/// Lengths grow with the density, by a whole at 96 dots per inch: the result is the largest
/// whole length that is no longer, and a length to the left mirrors one to the right.
pub proof fn law_length_grows_with_the_density(v: i32, dpi: u32, r: i32, mirrored: i32)
    requires
        0 < v,
        call_ensures(dp, (v, dpi), r),
        call_ensures(dp, ((-v) as i32, dpi), mirrored),
    ensures
        96 * r <= v * dpi < 96 * (r + 1),
        mirrored == -r,
{
    let product = v * dpi;
    assert(-(-v) * dpi == product);
    assert(r == product / 96);
}

/// A log that is too long loses its first half, and no other loses anything.
pub proof fn law_long_log_is_halved(len: i32, r: Option<i32>)
    requires
        call_ensures(log_to_cut, (len,), r),
    ensures
        len <= 80000 ==> r is None,
        len > 80000 ==> (r matches Some(n) && (n == len - n || n + 1 == len - n)),
{
}

/// The window opens with the last two hundred lines of the log, or with all.
pub proof fn law_last_lines_are_shown(lines: usize, r: usize)
    requires
        call_ensures(first_line_shown, (lines,), r),
    ensures
        lines <= 200 ==> r == 0,
        lines > 200 ==> r + 200 == lines,
{
}

// ---------------------------------------------------------------------------
// Adapters
// ---------------------------------------------------------------------------

/// The adapter that is kept is selected, by its exact name: the first of them.
pub proof fn law_kept_adapter_is_selected(adapters: Seq<AdapterView>, kept: Seq<char>, k: int)
    requires
        kept.len() > 0,
        0 <= k < adapters.len(),
        adapters[k].name == kept,
        forall|j: int| 0 <= j < k ==> (#[trigger] adapters[j]).name != kept,
    ensures
        preselected(adapters, kept) == Some(k),
{
    lemma_first_where(adapters, named_exactly(kept), 0);
    assert(named_exactly(kept)(adapters[k]));
    let f = first_where(adapters, named_exactly(kept), 0)->0;
    if f < k {
        assert(named_exactly(kept)(adapters[f]));
        assert(adapters[f].name != kept);
    }
}

/// Where none is kept, or the one that is kept is gone, the first that holds an address of
/// the campus is selected.
pub proof fn law_campus_adapter_is_selected(
    adapters: Seq<AdapterView>,
    kept: Seq<char>,
    k: int,
    i: int,
)
    requires
        forall|j: int| 0 <= j < adapters.len() ==> kept.len() == 0 || (#[trigger] adapters[j]).name
            != kept,
        0 <= k < adapters.len(),
        0 <= i < adapters[k].ipv4.len(),
        adapters[k].ipv4[i].a == 10,
        adapters[k].ipv4[i].b == 200 || adapters[k].ipv4[i].b == 202,
        forall|j: int, n: int|
            0 <= j < k && 0 <= n < adapters[j].ipv4.len() ==> (#[trigger] adapters[j].ipv4[n]).a
                != 10 || (adapters[j].ipv4[n].b != 200 && adapters[j].ipv4[n].b != 202),
    ensures
        preselected(adapters, kept) == Some(k),
{
    lemma_none_kept(adapters, kept);
    lemma_first_where(adapters, campus_adapter(), 0);
    assert(is_campus_ip(adapters[k].ipv4[i]));
    assert(campus_adapter()(adapters[k]));
    law_first_campus_adapter_is_chosen(adapters, k, i);
}

/// Where no adapter has the name that is kept, none is found by it.
proof fn lemma_none_kept(adapters: Seq<AdapterView>, kept: Seq<char>)
    requires
        forall|j: int| 0 <= j < adapters.len() ==> kept.len() == 0 || (#[trigger] adapters[j]).name
            != kept,
    ensures
        kept.len() == 0 || first_where(adapters, named_exactly(kept), 0) is None,
{
    lemma_first_where(adapters, named_exactly(kept), 0);
    if kept.len() > 0 {
        if let Some(f) = first_where(adapters, named_exactly(kept), 0) {
            assert(named_exactly(kept)(adapters[f]));
            assert(adapters[f].name != kept);
        }
    }
}

/// Without one on the campus, the first whose name speaks of a wireless network is
/// selected; without that, the first.
pub proof fn law_wireless_adapter_is_selected(
    adapters: Seq<AdapterView>,
    kept: Seq<char>,
    k: int,
)
    requires
        adapters.len() > 0,
        forall|j: int| 0 <= j < adapters.len() ==> kept.len() == 0 || (#[trigger] adapters[j]).name
            != kept,
        forall|j: int, n: int|
            0 <= j < adapters.len() && 0 <= n < adapters[j].ipv4.len()
                ==> (#[trigger] adapters[j].ipv4[n]).a != 10 || (adapters[j].ipv4[n].b != 200
                && adapters[j].ipv4[n].b != 202),
        0 <= k <= adapters.len(),
        forall|j: int| 0 <= j < k ==> is_free_of(lower((#[trigger] adapters[j]).name), "wlan"@),
        k < adapters.len() ==> !is_free_of(lower(adapters[k].name), "wlan"@),
    ensures
        preselected(adapters, kept) == Some(
            if k < adapters.len() {
                k
            } else {
                0
            },
        ),
{
    lemma_none_kept(adapters, kept);
    lemma_first_where(adapters, campus_adapter(), 0);
    if let Some(f) = first_where(adapters, campus_adapter(), 0) {
        assert(campus_adapter()(adapters[f]));
        let n = choose|n: int| 0 <= n < adapters[f].ipv4.len() && is_campus_ip(
            #[trigger] adapters[f].ipv4[n],
        );
        assert(adapters[f].ipv4[n].a != 10 || adapters[f].ipv4[n].b != 200);
        assert(false);
    }
    lemma_first_where(adapters, named_wlan(), 0);
    assert forall|j: int| 0 <= j < adapters.len() implies named_wlan()(#[trigger] adapters[j])
        == !is_free_of(lower(adapters[j].name), "wlan"@) by {
        law_contained_or_free(lower(adapters[j].name), "wlan"@);
    }
    match first_where(adapters, named_wlan(), 0) {
        Some(f) => {
            assert(named_wlan()(adapters[f]));
            if f < k {
                assert(is_free_of(lower(adapters[f].name), "wlan"@));
            }
            if k < f {
                assert(!named_wlan()(adapters[k]));
            }
        },
        None => {
            if k < adapters.len() {
                assert(!named_wlan()(adapters[k]));
            }
        },
    }
}

/// What the window says of an adapter tells whether it is on the campus.
pub proof fn law_info_tells_of_the_campus(a: AdapterView)
    ensures
        ({
            let facts = "名称: "@ + a.name + "    状态: "@ + a.status + "    MAC: "@ + a.mac
                + "\r\nIPv4: "@ + ips_text(a.ipv4, ", "@) + "    适配器: "@ + a.desc + "\r\n"@;
            &&& on_campus(a) ==> info_of(a) == facts
                + "提示: 该网卡在校园网段(10.200/10.202), 适合用于认证"@
            &&& !on_campus(a) ==> info_of(a) == facts
                + "注意: 该网卡不在校园网段(10.200/10.202), 认证可能不适用"@
        }),
{
}

// ---------------------------------------------------------------------------
// Signing in
// ---------------------------------------------------------------------------

/// The account and the address of the portal are taken without the blanks around them, the
/// password as it is, and the first address of the selected adapter; without an adapter
/// nothing is.
pub proof fn law_controls_are_taken(
    w1: Seq<char>,
    user: Seq<char>,
    w2: Seq<char>,
    pass: Seq<char>,
    w3: Seq<char>,
    portal: Seq<char>,
    w4: Seq<char>,
    a: AdapterView,
    phone_marked: bool,
    save: bool,
)
    requires
        all_white(w1) && all_white(w2) && all_white(w3) && all_white(w4),
        is_tight(user),
        is_tight(portal),
    ensures
        ({
            let taken = params_of(
                w1 + user + w2,
                pass,
                w3 + portal + w4,
                Some(a),
                phone_marked,
                save,
            );
            &&& taken is Some
            &&& taken->0.user == user
            &&& taken->0.pass == pass
            &&& taken->0.portal == portal
            &&& taken->0.adapter_name == a.name
            &&& taken->0.save == save
            &&& phone_marked ==> taken->0.ua_kind == "mobile"@
            &&& !phone_marked ==> taken->0.ua_kind == "pc"@
            &&& a.ipv4.len() > 0 ==> taken->0.source == Some(a.ipv4[0])
            &&& a.ipv4.len() == 0 ==> taken->0.source is None
        }),
        params_of(user, pass, portal, None, phone_marked, save) is None,
{
    law_trimming_drops_white_space(w1, user, w2);
    law_trimming_drops_white_space(w3, portal, w4);
}

/// There is something to sign in with where both the account and the password are filled
/// in; the password is kept only where that was chosen, letter for letter, and the portal
/// only where it is filled in.
pub proof fn law_filled_in_controls_are_used(
    p: &TaskParams,
    complete: bool,
    password: Option<&str>,
    portal: Option<&str>,
)
    requires
        call_ensures(TaskParams::is_complete, (p,), complete),
        call_ensures(TaskParams::password_to_keep, (p,), password),
        call_ensures(TaskParams::portal_to_keep, (p,), portal),
    ensures
        complete <==> p.user@.len() > 0 && p.pass@.len() > 0,
        p.save ==> (password matches Some(s) && s@ == p.pass@),
        !p.save ==> password is None,
        p.portal@.len() > 0 ==> (portal matches Some(s) && s@ == p.portal@),
        p.portal@.len() == 0 ==> portal is None,
{
}

/// What the window asks before it signs in, and what it logs, tells the account, the
/// adapter, the slot and whether the account is kept.
pub proof fn law_window_tells_what_it_does(p: ParamsView)
    ensures
        ({
            let slot = if p.ua_kind == "mobile"@ {
                "手机端(手机槽)"@
            } else {
                "电脑端(PC 槽)"@
            };
            let address = match p.source {
                Some(ip) => ip_text(ip),
                None => "自动"@,
            };
            &&& opening_of(p) == "---- 一键认证: 账号="@ + p.user + " 网卡="@ + p.adapter_name
                + " 设备="@ + slot + " 保存="@ + (if p.save {
                "是"@
            } else {
                "否"@
            }) + " ----"@
            &&& confirm_of(p) == "即将使用以下配置提交登录认证:\n\n账号: "@ + p.user
                + "\n网卡: "@ + p.adapter_name + " ("@ + address + ")\n设备类型: "@ + slot
                + "\n保存账号密码: "@ + (if p.save {
                "是(DPAPI 加密)"@
            } else {
                "否"@
            })
                + "\n\n注意: 认证会占用对应设备槽位; 若槽位已被占用,\n程序只会提示手动下线, 不会自动顶号.\n\n确定继续?"@
        }),
{
}

/// A login that ends well is shown as good news, one that needs the user to act as a
/// warning that names the self-service, and any other as an error that tells the reason.
pub proof fn law_end_is_shown(code: LoginCode, detail: Seq<char>)
    ensures
        feedback_of(true, LoginCode::Already, detail).status == "已在线"@,
        feedback_of(true, LoginCode::Success, detail).status == "已上线"@,
        feedback_of(true, code, detail).sign == Sign::Information,
        feedback_of(false, LoginCode::Conflict, detail).sign == Sign::Warning,
        feedback_of(false, LoginCode::Conflict, detail).status == "槽位冲突"@,
        feedback_of(false, LoginCode::Conflict, detail).text
            == "该设备槽位已被占用(或在线终端数超限).\n\n请打开自助管理界面手动下线占用设备后重试:\n"@
            + SELF_SERVICE_URL@ + "\n\n(点击「自助管理(手动下线)」按钮可直达)"@,
        feedback_of(false, LoginCode::BadPassword, detail).status == "密码错误"@,
        code != LoginCode::Conflict ==> feedback_of(false, code, detail).sign == Sign::Error,
        code != LoginCode::Conflict && code != LoginCode::BadPassword ==> feedback_of(
            false,
            code,
            detail,
        ).text == "认证失败: "@ + detail,
{
}

/// The log tells the verdict of a test, and the account that was kept.
pub proof fn law_log_tells_the_verdict(
    open: Option<bool>,
    verdict: &'static str,
    user: &str,
    with_password: bool,
    restored: String,
)
    requires
        call_ensures(verdict_line, (open,), verdict),
        call_ensures(restored_line, (user, with_password), restored),
    ensures
        open == Some(true) ==> verdict@ == "结论: 已联网(已认证), 无需登录"@,
        open == Some(false) ==> verdict@ == "结论: 未认证(被门户劫持), 可执行一键认证"@,
        open is None ==> verdict@ == "结论: 无法判定, 网卡可能未连接或网络异常"@,
        with_password ==> restored@ == "已载入保存的账号: "@ + user@ + "(含加密保存的密码)"@,
        !with_password ==> restored@ == "已载入保存的账号: "@ + user@,
{
    reveal_strlit("");
    if !with_password {
        assert(restored@ =~= "已载入保存的账号: "@ + user@);
    }
}

/// The history shows the lines of the log, one below the other; an empty log is told.
pub proof fn law_history_shows_the_log(lines: &Vec<String>, r: String)
    requires
        call_ensures(history_text, (lines,), r),
    ensures
        lines@.len() == 1 && lines@[0]@.len() > 0 ==> r@ == lines@[0]@,
        lines@.len() == 0 ==> r@ == "(暂无日志)"@,
        joined(texts(lines@), "\r\n"@).len() > 0 ==> r@ == joined(texts(lines@), "\r\n"@),
{
    let all = texts(lines@);
    if lines@.len() == 1 {
        assert(all[0] == lines@[0]@);
        assert(joined(all, "\r\n"@) =~= lines@[0]@);
    }
}

} // verus!
