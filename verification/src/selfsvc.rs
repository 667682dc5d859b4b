//! The portal's self-service: who is online under an account, and taking this device
//! offline. Every request is a JSON object of strings; every reply says in `errcode`
//! whether it was granted.
use vstd::prelude::*;
use crate::auth::{cookie_part, cookie_to_keep};
use crate::common::{body_text, decode_body, fits_decoder, PORTAL_HOST, UA_PC};
use crate::crypto::{base64_bytes, decode_base64};
use crate::http::{
    add_header, header_value, reply_view, Call, CallView, HttpClient, Reply, ReplyView,
};
use crate::ipv4::Ipv4;
use crate::json::{
    has_plain_names, is_plain_name, json_count, json_count_at, json_error, json_error_of,
    json_object, json_object_of, json_string, json_string_at,
};
use crate::login::or_text;
use crate::text::{
    chars_of, dec, dec_text, first_where, join2, join3, join4, join5, lemma_first_where, pairs,
    same_chars, same_ignoring_case, same_ignoring_case_spec, same_text, text_of, upper_char,
    upper_char_spec,
};

verus! {

// ---------------------------------------------------------------------------
// Devices
// ---------------------------------------------------------------------------

/// A device that is online, as the self-service lists it.
#[derive(Debug, Clone)]
pub struct DeviceRow {
    pub account_id: String,
    /// Such as `BC:6E:E2:34:4F:63`.
    pub account_mac: String,
    /// The session: a new one each time.
    pub billing_id: String,
    pub account_ip: String,
    pub server_ip: String,
    /// `a` is a computer, `b` a phone.
    pub terminal_type: String,
    pub os_info: String,
    pub online_time: String,
}

/// A device that is online, as plain values.
#[verifier::ext_equal]
pub struct RowView {
    pub account_id: Seq<char>,
    pub account_mac: Seq<char>,
    pub billing_id: Seq<char>,
    pub account_ip: Seq<char>,
    pub server_ip: Seq<char>,
    pub terminal_type: Seq<char>,
    pub os_info: Seq<char>,
    pub online_time: Seq<char>,
}

impl View for DeviceRow {
    type V = RowView;

    open spec fn view(&self) -> RowView {
        RowView {
            account_id: self.account_id@,
            account_mac: self.account_mac@,
            billing_id: self.billing_id@,
            account_ip: self.account_ip@,
            server_ip: self.server_ip@,
            terminal_type: self.terminal_type@,
            os_info: self.os_info@,
            online_time: self.online_time@,
        }
    }
}

/// The plain values of devices.
pub open spec fn rows_view(rows: Seq<DeviceRow>) -> Seq<RowView> {
    rows.map_values(|r: DeviceRow| r@)
}

/// A hexadecimal digit.
pub open spec fn is_hex_digit(c: char) -> bool {
    ||| '0' <= c && c <= '9'
    ||| 'a' <= c && c <= 'f'
    ||| 'A' <= c && c <= 'F'
}

/// The hexadecimal digits of a text, in capitals.
pub open spec fn hex_digits(s: Seq<char>) -> Seq<char>
    decreases s.len(),
{
    if s.len() == 0 {
        Seq::empty()
    } else if is_hex_digit(s.last()) {
        hex_digits(s.drop_last()).push(upper_char_spec(s.last()))
    } else {
        hex_digits(s.drop_last())
    }
}

/// The hexadecimal digits of a hardware address, in capitals, whatever stands between
/// them.
pub fn norm_mac(s: &str) -> (r: String)
    ensures
        r@ == hex_digits(s@),
{
    let chars = chars_of(s);
    let mut out: Vec<char> = Vec::new();
    let mut i: usize = 0;
    assert(chars@.take(0) == Seq::<char>::empty());
    while i < chars.len()
        invariant
            i <= chars@.len(),
            out@ == hex_digits(chars@.take(i as int)),
        decreases chars@.len() - i,
    {
        let c = chars[i];
        assert(chars@.take(i + 1).drop_last() == chars@.take(i as int));
        assert(chars@.take(i + 1).last() == c);
        if ('0' <= c && c <= '9') || ('a' <= c && c <= 'f') || ('A' <= c && c <= 'F') {
            out.push(upper_char(c));
        }
        i += 1;
    }
    assert(chars@.take(chars@.len() as int) == s@);
    text_of(&out)
}

/// Rows with a hardware address.
pub open spec fn has_mac(mac: Seq<char>) -> spec_fn(RowView) -> bool {
    |r: RowView| hex_digits(r.account_mac) == mac
}

/// Rows with an address.
pub open spec fn has_ip(ip: Seq<char>) -> spec_fn(RowView) -> bool {
    |r: RowView| same_ignoring_case_spec(r.account_ip, ip)
}

/// The row of this device: the first with its hardware address, or else the first with its
/// address. What is empty matches no row.
pub open spec fn own_row(rows: Seq<RowView>, mac: Seq<char>, ip: Seq<char>) -> Option<int> {
    if mac.len() > 0 && first_where(rows, has_mac(mac), 0) is Some {
        first_where(rows, has_mac(mac), 0)
    } else if ip.len() > 0 {
        first_where(rows, has_ip(ip), 0)
    } else {
        None
    }
}

/// The row of this device: by its hardware address, digits alone and in capitals, or else
/// by its address. Without a row, nothing may be taken offline.
pub fn find_own_row(rows: &[DeviceRow], mac_nosep: &str, ip: &str) -> (r: Option<usize>)
    ensures
        match r {
            Some(i) => i < rows@.len() && own_row(rows_view(rows@), mac_nosep@, ip@) == Some(
                i as int,
            ),
            None => own_row(rows_view(rows@), mac_nosep@, ip@) is None,
        },
{
    let ghost views = rows_view(rows@);
    let wanted = chars_of(mac_nosep);
    if !mac_nosep.is_empty() {
        let mut i: usize = 0;
        while i < rows.len()
            invariant
                i <= rows@.len(),
                wanted@ == mac_nosep@,
                mac_nosep@.len() > 0,
                views == rows_view(rows@),
                first_where(views, has_mac(mac_nosep@), 0) == first_where(
                    views,
                    has_mac(mac_nosep@),
                    i as int,
                ),
            decreases rows@.len() - i,
        {
            assert(views[i as int] == rows@[i as int]@);
            if same_chars(&chars_of(&norm_mac(&rows[i].account_mac)), &wanted) {
                return Some(i);
            }
            i += 1;
        }
    }
    if !ip.is_empty() {
        let mut i: usize = 0;
        while i < rows.len()
            invariant
                i <= rows@.len(),
                views == rows_view(rows@),
                first_where(views, has_ip(ip@), 0) == first_where(views, has_ip(ip@), i as int),
                own_row(views, mac_nosep@, ip@) == first_where(views, has_ip(ip@), 0),
            decreases rows@.len() - i,
        {
            assert(views[i as int] == rows@[i as int]@);
            if same_ignoring_case(&rows[i].account_ip, ip) {
                return Some(i);
            }
            i += 1;
        }
    }
    None
}

// ---------------------------------------------------------------------------
// Requests and replies
// ---------------------------------------------------------------------------

/// The fields of a request.
pub type Fields = Seq<(Seq<char>, Seq<char>)>;

/// No fields.
pub open spec fn no_fields() -> Fields {
    Seq::empty()
}

/// The headers of a request: the session's cookie first, where there is one.
pub open spec fn service_headers(cookie: Seq<char>) -> Fields {
    let session = if cookie.len() > 0 {
        no_fields().push(("Cookie"@, cookie))
    } else {
        no_fields()
    };
    session.push(("User-Agent"@, UA_PC@)).push(
        ("Accept"@, "application/json, text/plain, */*"@),
    ).push(("Content-Type"@, "application/json"@)).push(("X-Requested-With"@, "XMLHttpRequest"@))
}

/// A request to the self-service.
pub open spec fn service_call(cookie: Seq<char>, path: Seq<char>, fields: Fields) -> CallView {
    CallView {
        method: "POST"@,
        url: "http://"@ + PORTAL_HOST@ + "/"@ + path,
        headers: service_headers(cookie),
        body: Some(json_object_of(fields)),
    }
}

/// The first characters of a text.
pub open spec fn brief(text: Seq<char>) -> Seq<char> {
    if text.len() <= 80 {
        text
    } else {
        text.take(80)
    }
}

/// What a reply from the self-service says: the JSON text, or what is wrong with it.
pub open spec fn service_text(path: Seq<char>, reply: ReplyView) -> Result<Seq<char>, Seq<char>> {
    match reply {
        Err(e) => Err(path + " 请求失败: "@ + e),
        Ok(resp) => {
            let text = body_text(resp.body);
            if resp.status != 200 {
                Err(path + " HTTP "@ + dec(resp.status as nat) + ": "@ + brief(text))
            } else {
                match json_error_of(text) {
                    Some(e) => Err(path + " 响应非 JSON: "@ + e),
                    None => Ok(text),
                }
            }
        },
    }
}

/// The cookie of a session after a reply: the one that the reply sets, or the one before.
pub open spec fn cookie_after(cookie: Seq<char>, reply: ReplyView) -> Seq<char> {
    match reply {
        Err(_) => cookie,
        Ok(resp) => match header_value(resp.headers, "Set-Cookie"@) {
            Some(c) => if cookie_part(c).len() > 0 {
                cookie_part(c)
            } else {
                cookie
            },
            None => cookie,
        },
    }
}

/// Whether a reply grants the request: only an `errcode` of `0` does. The message says why
/// it does not.
pub open spec fn granted(errcode: Option<Seq<char>>, errmsg: Option<Seq<char>>) -> Result<
    (),
    Seq<char>,
> {
    if errcode == Some("0"@) {
        Ok(())
    } else {
        Err(or_text(errmsg, "未知错误"@))
    }
}

/// Whether a JSON text grants the request.
pub open spec fn text_granted(text: Seq<char>) -> Result<(), Seq<char>> {
    granted(json_string_at(text, "/errcode"@), json_string_at(text, "/errmsg"@))
}

/// Whether a reply grants the request: only an `errcode` of `0` does.
pub fn check_errcode(errcode: Option<&str>, errmsg: Option<&str>) -> (r: Result<(), String>)
    ensures
        ({
            let code = match errcode {
                Some(s) => Some(s@),
                None => None,
            };
            let message = match errmsg {
                Some(s) => Some(s@),
                None => None,
            };
            match granted(code, message) {
                Ok(_) => r is Ok,
                Err(e) => r matches Err(m) && m@ == e,
            }
        }),
{
    if let Some(code) = errcode {
        if same_text(code, "0") {
            return Ok(());
        }
    }
    match errmsg {
        Some(m) => Err(m.to_owned()),
        None => Err("未知错误".to_owned()),
    }
}

/// Whether a JSON text grants the request.
fn check_text(text: &str) -> (r: Result<(), String>)
    ensures
        match text_granted(text@) {
            Ok(_) => r is Ok,
            Err(e) => r matches Err(m) && m@ == e,
        },
{
    let code = json_string(text, "/errcode");
    let message = json_string(text, "/errmsg");
    let code_text = match &code {
        Some(s) => Some(s.as_str()),
        None => None,
    };
    let message_text = match &message {
        Some(s) => Some(s.as_str()),
        None => None,
    };
    check_errcode(code_text, message_text)
}

/// The string at a place in a JSON text, or another text where there is none.
fn string_or(text: &str, pointer: &str, other: &str) -> (r: String)
    ensures
        r@ == or_text(json_string_at(text@, pointer@), other@),
{
    match json_string(text, pointer) {
        Some(s) => s,
        None => other.to_owned(),
    }
}

/// A captcha, and the session that it belongs to.
#[derive(Debug)]
pub struct Captcha {
    pub cookie: String,
    pub png: Vec<u8>,
}

/// What a reply to the request for a captcha holds: the image.
pub open spec fn captcha_in(text: Seq<char>) -> Result<Seq<u8>, Seq<char>> {
    match json_string_at(text, "/data/verifyCode"@) {
        None => Err("tologin 响应缺少验证码(data.verifyCode)"@),
        Some(b64) => match base64_bytes(b64) {
            Ok(png) => Ok(png),
            Err(e) => Err("验证码 base64 解码失败: "@ + e),
        },
    }
}

/// A field of a row in the list of devices.
pub open spec fn row_field(text: Seq<char>, i: int, key: Seq<char>) -> Seq<char> {
    or_text(json_string_at(text, "/rows/"@ + dec(i as nat) + "/"@ + key), Seq::empty())
}

/// A row in the list of devices. A field that is missing, or is no string, is empty.
pub open spec fn row_in(text: Seq<char>, i: int) -> RowView {
    RowView {
        account_id: row_field(text, i, "accountId"@),
        account_mac: row_field(text, i, "accountMac"@),
        billing_id: row_field(text, i, "billingId"@),
        account_ip: row_field(text, i, "accountIp"@),
        server_ip: row_field(text, i, "serverIp"@),
        terminal_type: row_field(text, i, "terminalType"@),
        os_info: row_field(text, i, "osInfo"@),
        online_time: row_field(text, i, "onlineTime"@),
    }
}

/// The list of devices. Without a list there are none.
pub open spec fn rows_in(text: Seq<char>) -> Seq<RowView> {
    match json_count_at(text, "/rows"@) {
        Some(n) => Seq::new(n, |i: int| row_in(text, i)),
        None => Seq::empty(),
    }
}

/// A field of a row in the list of devices.
fn field_of_row(text: &str, i: usize, key: &str) -> (r: String)
    ensures
        r@ == row_field(text@, i as int, key@),
{
    proof {
        reveal_strlit("");
        assert(""@ == Seq::<char>::empty());
    }
    string_or(text, &join4("/rows/", &dec_text(i as u64), "/", key), "")
}

/// The kind of device that a row's type stands for.
pub open spec fn slot_of(terminal_type: Seq<char>) -> Seq<char> {
    if terminal_type == "b"@ {
        "手机"@
    } else {
        "PC"@
    }
}

/// The kind of device that a row's type stands for.
pub fn slot_name(terminal_type: &str) -> (r: &'static str)
    ensures
        r@ == slot_of(terminal_type@),
{
    if same_text(terminal_type, "b") {
        "手机"
    } else {
        "PC"
    }
}

/// Adds a field.
fn push_field(fields: &mut Vec<(String, String)>, name: &str, value: &str)
    ensures
        pairs(final(fields)@) == pairs(old(fields)@).push((name@, value@)),
{
    fields.push((name.to_owned(), value.to_owned()));
    assert(pairs(fields@) == pairs(old(fields)@).push((name@, value@)));
}

/// No fields.
fn new_fields() -> (r: Vec<(String, String)>)
    ensures
        pairs(r@) == no_fields(),
{
    let fields: Vec<(String, String)> = Vec::new();
    assert(pairs(fields@) == no_fields());
    fields
}

/// The fields of a self-service login.
pub open spec fn login_fields(account: Seq<char>, password: Seq<char>, code: Seq<char>) -> Fields {
    no_fields().push(("accountId"@, account)).push(("password"@, password)).push(
        ("verifyCode"@, code),
    )
}

/// The fields of a request for the list of devices.
pub open spec fn list_fields(account: Seq<char>) -> Fields {
    no_fields().push(("accountId"@, account))
}

/// The fields of a request to take a session offline.
pub open spec fn kick_fields(account: Seq<char>, row: RowView) -> Fields {
    no_fields().push(("accountId"@, account)).push(("accountIp"@, row.account_ip)).push(
        ("billingId"@, row.billing_id),
    ).push(("serverIp"@, row.server_ip))
}

/// The fields of a request to take a device offline and to forget it.
pub open spec fn kick_by_mac_fields(account: Seq<char>, row: RowView) -> Fields {
    no_fields().push(("accountId"@, account)).push(("accountMac"@, row.account_mac))
}

/// What comes of a request to take a device offline: the words of the self-service.
pub open spec fn kick_result(path: Seq<char>, reply: ReplyView) -> Result<Seq<char>, Seq<char>> {
    match service_text(path, reply) {
        Err(e) => Err(e),
        Ok(text) => match text_granted(text) {
            Err(e) => Err(e),
            Ok(_) => Ok(or_text(json_string_at(text, "/errmsg"@), "下线成功"@)),
        },
    }
}

/// The body of a request says what was put into it: each field is read back under its name.
pub open spec fn reads_back(call: CallView, fields: Fields) -> bool {
    &&& call.body is Some
    &&& json_error_of(call.body->0) is None
    &&& forall|i: int|
        0 <= i < fields.len() ==> json_string_at(call.body->0, "/"@ + (#[trigger] fields[i]).0)
            == Some(fields[i].1)
}

/// The names of the fields all differ, and are such as a JSON pointer writes as they are.
proof fn lemma_plain_names(account: Seq<char>, password: Seq<char>, code: Seq<char>, row: RowView)
    ensures
        has_plain_names(no_fields()),
        has_plain_names(login_fields(account, password, code)),
        has_plain_names(list_fields(account)),
        has_plain_names(kick_fields(account, row)),
        has_plain_names(kick_by_mac_fields(account, row)),
{
    reveal_strlit("accountId");
    reveal_strlit("password");
    reveal_strlit("verifyCode");
    reveal_strlit("accountIp");
    reveal_strlit("billingId");
    reveal_strlit("serverIp");
    reveal_strlit("accountMac");
    assert(is_plain_name("accountId"@));
    assert(is_plain_name("password"@));
    assert(is_plain_name("verifyCode"@));
    assert(is_plain_name("accountIp"@));
    assert(is_plain_name("billingId"@));
    assert(is_plain_name("serverIp"@));
    assert(is_plain_name("accountMac"@));
    assert("accountId"@[7] != "accountIp"@[7] || "accountId"@[8] != "accountIp"@[8]);
    assert("accountId"@[0] != "billingId"@[0]);
    assert("accountIp"@[0] != "billingId"@[0]);
    assert("accountId"@.len() == 9 && "accountIp"@.len() == 9 && "billingId"@.len() == 9);
    assert("password"@.len() == 8 && "serverIp"@.len() == 8);
    assert("verifyCode"@.len() == 10 && "accountMac"@.len() == 10);
}

/// A session with the self-service.
#[derive(Debug)]
pub struct Spa {
    pub client: HttpClient,
    pub cookie: String,
}

impl Spa {
    /// A session that sends from `source`. It has no cookie yet.
    pub fn new(source: Option<Ipv4>) -> (r: Self)
        ensures
            r.client.source == source,
            r.client.timeout_secs == 8,
            r.cookie@ == Seq::<char>::empty(),
    {
        Spa { client: HttpClient::new(source), cookie: String::new() }
    }

    /// A request to the self-service.
    fn post(&self, path: &str, fields: &[(String, String)]) -> (r: Call)
        ensures
            r@ == service_call(self.cookie@, path@, pairs(fields@)),
            has_plain_names(pairs(fields@)) ==> reads_back(r@, pairs(fields@)),
    {
        let mut headers = new_fields();
        if !self.cookie.as_str().is_empty() {
            add_header(&mut headers, "Cookie", &self.cookie);
        }
        add_header(&mut headers, "User-Agent", UA_PC);
        add_header(&mut headers, "Accept", "application/json, text/plain, */*");
        add_header(&mut headers, "Content-Type", "application/json");
        add_header(&mut headers, "X-Requested-With", "XMLHttpRequest");
        Call {
            method: "POST".to_owned(),
            url: join4("http://", PORTAL_HOST, "/", path),
            headers,
            body: Some(json_object(fields)),
        }
    }

    /// The JSON text of a reply, or what is wrong with it.
    fn text_of_reply(path: &str, reply: &Reply) -> (r: Result<String, String>)
        requires
            reply matches Ok(resp) ==> fits_decoder(resp.body@.len()),
        ensures
            match service_text(path@, reply_view(*reply)) {
                Ok(text) => r matches Ok(t) && t@ == text,
                Err(e) => r matches Err(m) && m@ == e,
            },
    {
        let resp = match reply {
            Ok(resp) => resp,
            Err(e) => {
                return Err(join3(path, " 请求失败: ", e));
            },
        };
        let text = decode_body(&resp.body);
        if resp.status != 200 {
            let chars = chars_of(&text);
            let head = if chars.len() <= 80 {
                text_of(&chars)
            } else {
                let first = &chars[0..80];
                assert(first@ == chars@.take(80));
                text_of(first)
            };
            return Err(join5(path, " HTTP ", &dec_text(resp.status as u64), ": ", &head));
        }
        match json_error(&text) {
            Some(e) => Err(join3(path, " 响应非 JSON: ", &e)),
            None => Ok(text),
        }
    }

    /// Keeps the cookie that a reply sets.
    fn adopt_cookie(&mut self, reply: &Reply)
        ensures
            final(self).cookie@ == cookie_after(old(self).cookie@, reply_view(*reply)),
            final(self).client == old(self).client,
    {
        if let Ok(resp) = reply {
            if let Some(c) = resp.header("Set-Cookie") {
                let part = cookie_to_keep(c);
                if !part.as_str().is_empty() {
                    self.cookie = part;
                }
            }
        }
    }

    /// What to log, and the request for a captcha, which begins a session.
    pub fn tologin_call(&self) -> (r: (String, Call))
        ensures
            r.0@ == "自助接口: 获取验证码会话(tologin)..."@,
            r.1@ == service_call(self.cookie@, "self/tologin.do"@, no_fields()),
            reads_back(r.1@, no_fields()),
    {
        proof {
            lemma_plain_names(self.cookie@, self.cookie@, self.cookie@, arbitrary());
        }
        (
            "自助接口: 获取验证码会话(tologin)...".to_owned(),
            self.post("self/tologin.do", &new_fields()),
        )
    }

    /// The captcha that came back, with the session that it belongs to. The cookie is kept
    /// once the request is granted.
    pub fn tologin(&mut self, reply: &Reply) -> (r: Result<Captcha, String>)
        requires
            reply matches Ok(resp) ==> fits_decoder(resp.body@.len()),
        ensures
            final(self).client == old(self).client,
            match service_text("self/tologin.do"@, reply_view(*reply)) {
                Err(e) => r matches Err(m) && m@ == e && final(self).cookie@ == old(self).cookie@,
                Ok(text) => match text_granted(text) {
                    Err(e) => r matches Err(m) && m@ == e && final(self).cookie@
                        == old(self).cookie@,
                    Ok(_) => {
                        &&& final(self).cookie@ == cookie_after(
                            old(self).cookie@,
                            reply_view(*reply),
                        )
                        &&& match captcha_in(text) {
                            Ok(png) => r matches Ok(c) && c.png@ == png && c.cookie@
                                == final(self).cookie@,
                            Err(e) => r matches Err(m) && m@ == e,
                        }
                    },
                },
            },
    {
        let text = match Self::text_of_reply("self/tologin.do", reply) {
            Ok(t) => t,
            Err(e) => {
                return Err(e);
            },
        };
        if let Err(e) = check_text(&text) {
            return Err(e);
        }
        self.adopt_cookie(reply);
        let b64 = match json_string(&text, "/data/verifyCode") {
            Some(s) => s,
            None => {
                return Err("tologin 响应缺少验证码(data.verifyCode)".to_owned());
            },
        };
        match decode_base64(&b64) {
            Ok(png) => Ok(Captcha { cookie: self.cookie.as_str().to_owned(), png }),
            Err(e) => Err(join2("验证码 base64 解码失败: ", &e)),
        }
    }

    /// What to log, and the request to log in to the self-service.
    pub fn login_call(&self, account: &str, password: &str, code: &str) -> (r: (String, Call))
        ensures
            r.0@ == "自助接口: 登录自助系统(login)..."@,
            r.1@ == service_call(
                self.cookie@,
                "self/login.do"@,
                login_fields(account@, password@, code@),
            ),
            reads_back(r.1@, login_fields(account@, password@, code@)),
    {
        let mut fields = new_fields();
        push_field(&mut fields, "accountId", account);
        push_field(&mut fields, "password", password);
        push_field(&mut fields, "verifyCode", code);
        proof {
            lemma_plain_names(account@, password@, code@, arbitrary());
        }
        (
            "自助接口: 登录自助系统(login)...".to_owned(),
            self.post("self/login.do", &fields),
        )
    }

    /// Whether the login was granted. The cookie is kept either way.
    pub fn login(&mut self, reply: &Reply) -> (r: Result<(), String>)
        requires
            reply matches Ok(resp) ==> fits_decoder(resp.body@.len()),
        ensures
            final(self).client == old(self).client,
            match service_text("self/login.do"@, reply_view(*reply)) {
                Err(e) => r matches Err(m) && m@ == e && final(self).cookie@ == old(self).cookie@,
                Ok(text) => {
                    &&& final(self).cookie@ == cookie_after(old(self).cookie@, reply_view(*reply))
                    &&& match text_granted(text) {
                        Ok(_) => r is Ok,
                        Err(e) => r matches Err(m) && m@ == e,
                    }
                },
            },
    {
        let text = match Self::text_of_reply("self/login.do", reply) {
            Ok(t) => t,
            Err(e) => {
                return Err(e);
            },
        };
        self.adopt_cookie(reply);
        check_text(&text)
    }

    /// What to log, and the request for the devices that are online.
    pub fn getonline_call(&self, account: &str) -> (r: (String, Call))
        ensures
            r.0@ == "自助接口: 查询在线设备(getonline)..."@,
            r.1@ == service_call(self.cookie@, "self/getonline.do"@, list_fields(account@)),
            reads_back(r.1@, list_fields(account@)),
    {
        let mut fields = new_fields();
        push_field(&mut fields, "accountId", account);
        proof {
            lemma_plain_names(account@, account@, account@, arbitrary());
        }
        (
            "自助接口: 查询在线设备(getonline)...".to_owned(),
            self.post("self/getonline.do", &fields),
        )
    }

    /// The devices that are online.
    pub fn getonline(&self, reply: &Reply) -> (r: Result<Vec<DeviceRow>, String>)
        requires
            reply matches Ok(resp) ==> fits_decoder(resp.body@.len()),
        ensures
            match service_text("self/getonline.do"@, reply_view(*reply)) {
                Err(e) => r matches Err(m) && m@ == e,
                Ok(text) => match text_granted(text) {
                    Err(e) => r matches Err(m) && m@ == e,
                    Ok(_) => r matches Ok(rows) && rows_view(rows@) == rows_in(text),
                },
            },
    {
        let text = match Self::text_of_reply("self/getonline.do", reply) {
            Ok(t) => t,
            Err(e) => {
                return Err(e);
            },
        };
        if let Err(e) = check_text(&text) {
            return Err(e);
        }
        let mut rows: Vec<DeviceRow> = Vec::new();
        let n: usize = match json_count(&text, "/rows") {
            Some(n) => n,
            None => 0,
        };
        let mut i: usize = 0;
        assert(rows_view(rows@) == rows_in(text@).take(0));
        while i < n
            invariant
                i <= n,
                rows_in(text@).len() == n,
                rows_view(rows@) == rows_in(text@).take(i as int),
            decreases n - i,
        {
            let ghost before = rows_view(rows@);
            let row = DeviceRow {
                account_id: field_of_row(&text, i, "accountId"),
                account_mac: field_of_row(&text, i, "accountMac"),
                billing_id: field_of_row(&text, i, "billingId"),
                account_ip: field_of_row(&text, i, "accountIp"),
                server_ip: field_of_row(&text, i, "serverIp"),
                terminal_type: field_of_row(&text, i, "terminalType"),
                os_info: field_of_row(&text, i, "osInfo"),
                online_time: field_of_row(&text, i, "onlineTime"),
            };
            assert(row@ == rows_in(text@)[i as int]);
            rows.push(row);
            assert(rows_view(rows@) == before.push(row@));
            i += 1;
            assert(rows_view(rows@) == rows_in(text@).take(i as int));
        }
        assert(rows_in(text@).take(n as int) == rows_in(text@));
        Ok(rows)
    }

    /// What to log, and the request to take a session offline. The row is to be that of
    /// this device, as it was just listed.
    pub fn kickonline_call(&self, account: &str, row: &DeviceRow) -> (r: (String, Call))
        ensures
            r.0@ == "自助接口: 下线 "@ + row@.account_ip + " ("@ + row@.os_info + "/"@ + slot_of(
                row@.terminal_type,
            ) + ")..."@,
            r.1@ == service_call(
                self.cookie@,
                "self/kickonline.do"@,
                kick_fields(account@, row@),
            ),
            reads_back(r.1@, kick_fields(account@, row@)),
    {
        let mut fields = new_fields();
        push_field(&mut fields, "accountId", account);
        push_field(&mut fields, "accountIp", &row.account_ip);
        push_field(&mut fields, "billingId", &row.billing_id);
        push_field(&mut fields, "serverIp", &row.server_ip);
        proof {
            lemma_plain_names(account@, account@, account@, row@);
        }
        let who = join5("自助接口: 下线 ", &row.account_ip, " (", &row.os_info, "/");
        (
            join3(&who, slot_name(&row.terminal_type), ")..."),
            self.post("self/kickonline.do", &fields),
        )
    }

    /// What came of taking a session offline: the words of the self-service.
    pub fn kickonline(&self, reply: &Reply) -> (r: Result<String, String>)
        requires
            reply matches Ok(resp) ==> fits_decoder(resp.body@.len()),
        ensures
            match kick_result("self/kickonline.do"@, reply_view(*reply)) {
                Ok(words) => r matches Ok(w) && w@ == words,
                Err(e) => r matches Err(m) && m@ == e,
            },
    {
        Self::kicked("self/kickonline.do", reply)
    }

    /// What to log, and the request to take a device offline by its hardware address and to
    /// forget the slot that it is bound to. The row is to be that of this device.
    pub fn kick_by_mac_call(&self, account: &str, row: &DeviceRow) -> (r: (String, Call))
        ensures
            r.0@ == "自助接口: 按 MAC 下线 "@ + row@.account_mac + " (并清除绑定)..."@,
            r.1@ == service_call(
                self.cookie@,
                "self/kickonlineByMac.do"@,
                kick_by_mac_fields(account@, row@),
            ),
            reads_back(r.1@, kick_by_mac_fields(account@, row@)),
    {
        let mut fields = new_fields();
        push_field(&mut fields, "accountId", account);
        push_field(&mut fields, "accountMac", &row.account_mac);
        proof {
            lemma_plain_names(account@, account@, account@, row@);
        }
        (
            join3("自助接口: 按 MAC 下线 ", &row.account_mac, " (并清除绑定)..."),
            self.post("self/kickonlineByMac.do", &fields),
        )
    }

    /// What came of taking a device offline by its hardware address: the words of the
    /// self-service.
    pub fn kick_by_mac(&self, reply: &Reply) -> (r: Result<String, String>)
        requires
            reply matches Ok(resp) ==> fits_decoder(resp.body@.len()),
        ensures
            match kick_result("self/kickonlineByMac.do"@, reply_view(*reply)) {
                Ok(words) => r matches Ok(w) && w@ == words,
                Err(e) => r matches Err(m) && m@ == e,
            },
    {
        Self::kicked("self/kickonlineByMac.do", reply)
    }

    /// What came of taking a device offline.
    fn kicked(path: &str, reply: &Reply) -> (r: Result<String, String>)
        requires
            reply matches Ok(resp) ==> fits_decoder(resp.body@.len()),
        ensures
            match kick_result(path@, reply_view(*reply)) {
                Ok(words) => r matches Ok(w) && w@ == words,
                Err(e) => r matches Err(m) && m@ == e,
            },
    {
        let text = match Self::text_of_reply(path, reply) {
            Ok(t) => t,
            Err(e) => {
                return Err(e);
            },
        };
        match check_text(&text) {
            Ok(_) => Ok(string_or(&text, "/errmsg", "下线成功")),
            Err(e) => Err(e),
        }
    }

    /// The request that ends the session with the self-service. What comes of it does not
    /// matter; the network stays as it is.
    pub fn logout(&self) -> (r: Call)
        ensures
            r@ == service_call(self.cookie@, "self/logout.do"@, no_fields()),
    {
        self.post("self/logout.do", &new_fields())
    }
}

// ---------------------------------------------------------------------------
// Laws
// ---------------------------------------------------------------------------

/// Only this device is ever found: the row has its hardware address or its address, and
/// where a row has either, one is found.
pub proof fn law_only_the_own_row_is_found(rows: Seq<RowView>, mac: Seq<char>, ip: Seq<char>)
    ensures
        match own_row(rows, mac, ip) {
            Some(i) => 0 <= i < rows.len() && ((mac.len() > 0 && hex_digits(rows[i].account_mac)
                == mac) || (ip.len() > 0 && same_ignoring_case_spec(rows[i].account_ip, ip))),
            None => forall|j: int|
                0 <= j < rows.len() ==> !(mac.len() > 0 && hex_digits(
                    (#[trigger] rows[j]).account_mac,
                ) == mac) && !(ip.len() > 0 && same_ignoring_case_spec(rows[j].account_ip, ip)),
        },
{
    lemma_first_where(rows, has_mac(mac), 0);
    lemma_first_where(rows, has_ip(ip), 0);
    assert forall|j: int| 0 <= j < rows.len() implies has_mac(mac)(rows[j]) == (hex_digits(
        (#[trigger] rows[j]).account_mac,
    ) == mac) by {}
}

/// What stands between the digits of a hardware address does not matter.
pub proof fn law_separators_do_not_matter(a: Seq<char>, sep: char, b: Seq<char>)
    requires
        !is_hex_digit(sep),
    ensures
        hex_digits(a + seq![sep] + b) == hex_digits(a) + hex_digits(b),
    decreases b.len(),
{
    let s = a + seq![sep] + b;
    if b.len() == 0 {
        assert(s.drop_last() == a);
        assert(hex_digits(a) + Seq::<char>::empty() == hex_digits(a));
    } else {
        law_separators_do_not_matter(a, sep, b.drop_last());
        assert(s.drop_last() == a + seq![sep] + b.drop_last());
        assert(s.last() == b.last());
        if is_hex_digit(b.last()) {
            assert(hex_digits(a) + hex_digits(b.drop_last()).push(upper_char_spec(b.last())) == (
            hex_digits(a) + hex_digits(b.drop_last())).push(upper_char_spec(b.last())));
        }
    }
}

/// A hardware address in its plain form stays as it is.
pub proof fn law_plain_address_stays(s: Seq<char>)
    ensures
        hex_digits(hex_digits(s)) == hex_digits(s),
    decreases s.len(),
{
    if s.len() > 0 {
        law_plain_address_stays(s.drop_last());
        if is_hex_digit(s.last()) {
            let d = hex_digits(s);
            assert(d.drop_last() == hex_digits(s.drop_last()));
            assert(d.last() == upper_char_spec(s.last()));
            assert(is_hex_digit(d.last()));
            assert(upper_char_spec(d.last()) == d.last());
        }
    }
}

} // verus!
