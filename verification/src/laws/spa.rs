//! What the client of the self-service asks for, and what it reads.
use vstd::prelude::*;
use crate::common::body_text;
use crate::crypto::base64_bytes;
use crate::http::{reply_view, Call, Reply};
use crate::ipv4::Ipv4;
use crate::json::{json_error_of, json_string_at};
use crate::laws::offline::{
    answered, asking, grants, law_session_is_named, lemma_asking, lemma_paths,
};
use crate::selfsvc::{
    check_errcode, cookie_after, kick_by_mac_fields, list_fields, login_fields, rows_in, rows_view,
    slot_name, Captcha, DeviceRow, Spa,
};

verus! {

/// A new client sends from the given address, waits eight seconds, and has no session.
pub proof fn law_new_client_has_no_session(source: Option<Ipv4>, spa: Spa)
    requires
        call_ensures(Spa::new, (source,), spa),
    ensures
        spa.client.source == source,
        spa.client.timeout_secs == 8,
        spa.cookie@.len() == 0,
{
}

/// The captcha is asked for without anything, in the session that there is.
pub proof fn law_captcha_is_asked_for(spa: &Spa, r: (String, Call))
    requires
        call_ensures(Spa::tologin_call, (spa,), r),
    ensures
        r.0@ == "自助接口: 获取验证码会话(tologin)..."@,
        r.1@ == asking(spa.cookie@, "tologin.do"@, Seq::empty()),
{
    lemma_paths();
    lemma_asking(spa.cookie@, "tologin.do"@, Seq::empty());
}

/// The login sends the account, the password and the code, letter for letter.
pub proof fn law_login_sends_the_code(
    spa: &Spa,
    account: &str,
    password: &str,
    code: &str,
    r: (String, Call),
)
    requires
        call_ensures(Spa::login_call, (spa, account, password, code), r),
    ensures
        r.0@ == "自助接口: 登录自助系统(login)..."@,
        r.1@ == asking(
            spa.cookie@,
            "login.do"@,
            seq![("accountId"@, account@), ("password"@, password@), ("verifyCode"@, code@)],
        ),
{
    lemma_paths();
    let fields = seq![("accountId"@, account@), ("password"@, password@), ("verifyCode"@, code@)];
    assert(login_fields(account@, password@, code@) =~= fields);
    lemma_asking(spa.cookie@, "login.do"@, fields);
}

/// The devices are asked for by the account.
pub proof fn law_devices_are_asked_for(spa: &Spa, account: &str, r: (String, Call))
    requires
        call_ensures(Spa::getonline_call, (spa, account), r),
    ensures
        r.0@ == "自助接口: 查询在线设备(getonline)..."@,
        r.1@ == asking(spa.cookie@, "getonline.do"@, seq![("accountId"@, account@)]),
{
    lemma_paths();
    assert(list_fields(account@) =~= seq![("accountId"@, account@)]);
    lemma_asking(spa.cookie@, "getonline.do"@, seq![("accountId"@, account@)]);
}

/// A session is taken offline by what the list has for it, and a device by its hardware
/// address; the log tells which.
pub proof fn law_device_is_taken_offline(
    spa: &Spa,
    account: &str,
    row: &DeviceRow,
    session: (String, Call),
    device: (String, Call),
    leaving: Call,
)
    requires
        call_ensures(Spa::kickonline_call, (spa, account, row), session),
        call_ensures(Spa::kick_by_mac_call, (spa, account, row), device),
        call_ensures(Spa::logout, (spa,), leaving),
    ensures
        ({
            let slot = if row@.terminal_type == "b"@ {
                "手机"@
            } else {
                "PC"@
            };
            session.0@ == "自助接口: 下线 "@ + row@.account_ip + " ("@ + row@.os_info + "/"@ + slot
                + ")..."@
        }),
        session.1@ == asking(
            spa.cookie@,
            "kickonline.do"@,
            seq![
                ("accountId"@, account@),
                ("accountIp"@, row@.account_ip),
                ("billingId"@, row@.billing_id),
                ("serverIp"@, row@.server_ip),
            ],
        ),
        device.0@ == "自助接口: 按 MAC 下线 "@ + row@.account_mac + " (并清除绑定)..."@,
        device.1@ == asking(
            spa.cookie@,
            "kickonlineByMac.do"@,
            seq![("accountId"@, account@), ("accountMac"@, row@.account_mac)],
        ),
        leaving@ == asking(spa.cookie@, "logout.do"@, Seq::empty()),
{
    lemma_paths();
    law_session_is_named(spa.cookie@, account@, row@);
    let fields = seq![("accountId"@, account@), ("accountMac"@, row@.account_mac)];
    assert(kick_by_mac_fields(account@, row@) =~= fields);
    lemma_asking(spa.cookie@, "kickonlineByMac.do"@, fields);
    lemma_asking(spa.cookie@, "logout.do"@, Seq::empty());
}

/// A captcha that is granted is the image of the answer, in the session that the answer
/// sets; what is refused changes no session.
pub proof fn law_captcha_is_read(
    spa: &mut Spa,
    reply: &Reply,
    r: Result<Captcha, String>,
    headers: Seq<(Seq<char>, Seq<char>)>,
    body: Seq<u8>,
    image: Seq<char>,
)
    requires
        reply_view(*reply) == answered(headers, body),
        json_string_at(body_text(body), "/data/verifyCode"@) == Some(image),
        base64_bytes(image) is Ok,
        call_ensures(Spa::tologin, (spa, reply), r),
    ensures
        grants(body) ==> (r matches Ok(c) && (c.png@ == base64_bytes(image)->Ok_0 && c.cookie@
            == final(spa).cookie@)),
        grants(body) ==> final(spa).cookie@ == cookie_after(
            old(spa).cookie@,
            answered(headers, body),
        ),
        !grants(body) ==> r is Err && final(spa).cookie@ == old(spa).cookie@,
        final(spa).client == old(spa).client,
{
}

/// A login is granted or refused by the answer, whose session is kept either way.
pub proof fn law_login_is_granted(
    spa: &mut Spa,
    reply: &Reply,
    r: Result<(), String>,
    headers: Seq<(Seq<char>, Seq<char>)>,
    body: Seq<u8>,
)
    requires
        reply_view(*reply) == answered(headers, body),
        json_error_of(body_text(body)) is None,
        call_ensures(Spa::login, (spa, reply), r),
    ensures
        r is Ok <==> grants(body),
        r matches Err(e) ==> e@ == (match json_string_at(body_text(body), "/errmsg"@) {
            Some(m) => m,
            None => "未知错误"@,
        }),
        final(spa).cookie@ == cookie_after(old(spa).cookie@, answered(headers, body)),
{
}

/// The devices are those of the answer, where it grants them.
pub proof fn law_granted_devices_are_read(
    spa: &Spa,
    reply: &Reply,
    r: Result<Vec<DeviceRow>, String>,
    headers: Seq<(Seq<char>, Seq<char>)>,
    body: Seq<u8>,
)
    requires
        reply_view(*reply) == answered(headers, body),
        call_ensures(Spa::getonline, (spa, reply), r),
    ensures
        grants(body) ==> (r matches Ok(rows) && rows_view(rows@) == rows_in(
            body_text(body),
        )),
        !grants(body) ==> r is Err,
{
}

/// What the self-service says of a device that was taken offline is handed on; where it
/// says nothing, that it was.
pub proof fn law_words_are_handed_on(
    spa: &Spa,
    reply: &Reply,
    session: Result<String, String>,
    device: Result<String, String>,
    headers: Seq<(Seq<char>, Seq<char>)>,
    body: Seq<u8>,
)
    requires
        reply_view(*reply) == answered(headers, body),
        call_ensures(Spa::kickonline, (spa, reply), session),
        call_ensures(Spa::kick_by_mac, (spa, reply), device),
    ensures
        ({
            let words = match json_string_at(body_text(body), "/errmsg"@) {
                Some(m) => m,
                None => "下线成功"@,
            };
            &&& grants(body) ==> (session matches Ok(w) && w@ == words)
            &&& grants(body) ==> (device matches Ok(w) && w@ == words)
            &&& !grants(body) ==> session is Err && device is Err
        }),
{
}

/// Only the code `0` grants; any other, and none, is refused with the words that came with
/// it. A phone is of the kind `b`, and any other kind is a computer.
pub proof fn law_only_zero_grants(
    code: Option<&str>,
    words: Option<&str>,
    r: Result<(), String>,
    kind: &str,
    slot: &'static str,
)
    requires
        call_ensures(check_errcode, (code, words), r),
        call_ensures(slot_name, (kind,), slot),
    ensures
        r is Ok <==> (code matches Some(c) && c@ == "0"@),
        r matches Err(e) ==> e@ == (match words {
            Some(w) => w@,
            None => "未知错误"@,
        }),
        kind@ == "b"@ ==> slot@ == "手机"@,
        kind@ != "b"@ ==> slot@ == "PC"@,
{
}

} // verus!
