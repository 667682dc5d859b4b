use campus_auth::common::UA_PC;
use campus_auth::http::{HttpResponse, Reply};
use campus_auth::offline::{on_verdict, Errand, ErrandNext, ErrandStage, Line};
use campus_auth::selfsvc::{check_errcode, find_own_row, norm_mac, slot_name, DeviceRow, Spa};

fn row(mac: &str, ip: &str) -> DeviceRow {
    DeviceRow {
        account_id: "u".into(),
        account_mac: mac.into(),
        billing_id: "x".into(),
        account_ip: ip.into(),
        server_ip: "10.255.2.250".into(),
        terminal_type: "b".into(),
        os_info: "Android 1.x".into(),
        online_time: String::new(),
    }
}

fn reply(body: &str) -> Reply {
    Ok(HttpResponse { status: 200, headers: Vec::new(), body: body.as_bytes().to_vec() })
}

fn reply_with_cookie(body: &str, cookie: &str) -> Reply {
    Ok(HttpResponse {
        status: 200,
        headers: vec![("set-cookie".to_string(), cookie.to_string())],
        body: body.as_bytes().to_vec(),
    })
}

#[test]
fn mac_norm_and_row_match() {
    assert_eq!(norm_mac("bc-6e-e2-34-4f-63"), "BC6EE2344F63");
    let rows = vec![row("BC:6E:E2:34:4F:63", "10.200.0.9")];
    assert!(find_own_row(&rows, "BC6EE2344F63", "").is_some());
    assert!(find_own_row(&rows, "", "10.200.0.9").is_some());
    assert!(find_own_row(&rows, "AABBCCDDEEFF", "").is_none());
}

#[test]
fn hardware_address_comes_before_address() {
    let rows = vec![row("AA:AA", "10.0.0.1"), row("bb-bb", "10.0.0.2"), row("BB:BB", "10.0.0.3")];
    assert_eq!(find_own_row(&rows, "BBBB", "10.0.0.1"), Some(1));
    assert_eq!(find_own_row(&rows, "CCCC", "10.0.0.1"), Some(0));
    assert_eq!(find_own_row(&rows, "", ""), None);
    assert_eq!(find_own_row(&[], "BBBB", "10.0.0.1"), None);
    assert_eq!(find_own_row(&[row("", "")], "", ""), None);
    assert_eq!(norm_mac(&norm_mac("xa.1-B")), "A1B");
}

#[test]
fn only_errcode_zero_grants() {
    assert_eq!(check_errcode(Some("0"), Some("m")), Ok(()));
    assert_eq!(check_errcode(Some("-1"), Some("请重新登录")), Err("请重新登录".to_string()));
    assert_eq!(check_errcode(None, None), Err("未知错误".to_string()));
    assert_eq!((slot_name("b"), slot_name("a"), slot_name("")), ("手机", "PC", "PC"));
}

#[test]
fn requests_are_json() {
    let mut spa = Spa::new(None);
    let (line, call) = spa.tologin_call();
    assert_eq!(line, "自助接口: 获取验证码会话(tologin)...");
    assert_eq!(call.method, "POST");
    assert_eq!(call.url, "http://10.255.2.252/self/tologin.do");
    assert_eq!(call.body.as_deref(), Some("{}"));
    assert_eq!(call.headers[0], ("User-Agent".to_string(), UA_PC.to_string()));
    assert!(call.headers.contains(&("Content-Type".to_string(), "application/json".to_string())));
    spa.cookie = "c=1".to_string();
    let (_, call) = spa.login_call("u\"1", "p密", "12ab");
    assert_eq!(call.headers[0], ("Cookie".to_string(), "c=1".to_string()));
    let body: serde_json::Value = serde_json::from_str(call.body.as_deref().unwrap()).unwrap();
    assert_eq!(body["accountId"], "u\"1");
    assert_eq!(body["password"], "p密");
    assert_eq!(body["verifyCode"], "12ab");
    let (line, call) = spa.kickonline_call("u", &row("m", "10.0.0.1"));
    assert_eq!(line, "自助接口: 下线 10.0.0.1 (Android 1.x/手机)...");
    assert_eq!(
        call.body.as_deref(),
        Some(r#"{"accountId":"u","accountIp":"10.0.0.1","billingId":"x","serverIp":"10.255.2.250"}"#)
    );
    let (_, call) = spa.kick_by_mac_call("u", &row("AA:BB", "10.0.0.1"));
    assert_eq!(call.url, "http://10.255.2.252/self/kickonlineByMac.do");
    assert_eq!(call.body.as_deref(), Some(r#"{"accountId":"u","accountMac":"AA:BB"}"#));
    assert_eq!(spa.logout().url, "http://10.255.2.252/self/logout.do");
}

#[test]
fn captcha_begins_a_session() {
    let mut spa = Spa::new(None);
    let ok = r#"{"errcode":"0","data":{"verifyCode":"aGVsbG8gd29ybGR+"}}"#;
    let captcha = spa.tologin(&reply_with_cookie(ok, "JSESSIONID-BOSS-1=z; Path=/")).unwrap();
    assert_eq!(captcha.png, b"hello world~");
    assert_eq!(captcha.cookie, "JSESSIONID-BOSS-1=z");
    assert_eq!(spa.cookie, "JSESSIONID-BOSS-1=z");
    let refused = r#"{"errcode":"-1","errmsg":"no"}"#;
    assert_eq!(spa.tologin(&reply_with_cookie(refused, "c=2")).unwrap_err(), "no");
    assert_eq!(spa.cookie, "JSESSIONID-BOSS-1=z");
    assert_eq!(
        spa.tologin(&reply(r#"{"errcode":"0"}"#)).unwrap_err(),
        "tologin 响应缺少验证码(data.verifyCode)"
    );
    assert!(spa
        .tologin(&reply(r#"{"errcode":"0","data":{"verifyCode":"*"}}"#))
        .unwrap_err()
        .starts_with("验证码 base64 解码失败: "));
}

#[test]
fn replies_that_are_wrong() {
    let mut spa = Spa::new(None);
    assert_eq!(spa.login(&Err("x".to_string())).unwrap_err(), "self/login.do 请求失败: x");
    let long = "界".repeat(100);
    let bad: Reply = Ok(HttpResponse { status: 415, headers: Vec::new(), body: long.as_bytes().to_vec() });
    assert_eq!(spa.login(&bad).unwrap_err(), format!("self/login.do HTTP 415: {}", "界".repeat(80)));
    assert!(spa.login(&reply("<html>")).unwrap_err().starts_with("self/login.do 响应非 JSON: "));
    assert_eq!(spa.login(&reply_with_cookie(r#"{"errcode":"-1"}"#, "c=3")).unwrap_err(), "未知错误");
    assert_eq!(spa.cookie, "c=3");
    assert_eq!(spa.login(&reply_with_cookie(r#"{"errcode":"0"}"#, " ; Path=/")), Ok(()));
    assert_eq!(spa.cookie, "c=3");
    assert_eq!(spa.kickonline(&reply(r#"{"errcode":"0"}"#)).unwrap(), "下线成功");
    assert_eq!(spa.kick_by_mac(&reply(r#"{"errcode":"0","errmsg":"好"}"#)).unwrap(), "好");
    assert_eq!(spa.kick_by_mac(&reply(r#"{"errcode":0,"errmsg":"数"}"#)).unwrap_err(), "数");
}

#[test]
fn devices_are_listed() {
    let spa = Spa::new(None);
    let text = r#"{"errcode":"0","rows":[{"accountId":"u","accountMac":"AA:BB","billingId":"9","accountIp":"10.0.0.1","serverIp":"s","terminalType":"a","osInfo":"Windows","onlineTime":"t"},{"accountIp":5}]}"#;
    let rows = spa.getonline(&reply(text)).unwrap();
    assert_eq!(rows.len(), 2);
    assert_eq!(rows[0].account_mac, "AA:BB");
    assert_eq!(rows[0].online_time, "t");
    assert_eq!(rows[1].account_ip, "");
    assert_eq!(spa.getonline(&reply(r#"{"errcode":"0","rows":{"0":1}}"#)).unwrap().len(), 0);
    assert_eq!(spa.getonline(&reply(r#"{"errcode":"0"}"#)).unwrap().len(), 0);
    assert_eq!(spa.getonline(&reply(r#"{"errcode":"-1","errmsg":"请重新登录"}"#)).unwrap_err(), "请重新登录");
}

fn errand(take_offline: bool) -> Errand {
    Errand {
        spa: Spa::new(None),
        username: "u".to_string(),
        password: "p".to_string(),
        take_offline,
        mac: "AABB".to_string(),
        ip: "10.0.0.7".to_string(),
    }
}

fn text_of(line: &Line) -> String {
    match line {
        Line::Log(s) => format!("log {s}"),
        Line::Out(s) => format!("out {s}"),
        Line::Error(s) => format!("err {s}"),
    }
}

const LIST: &str = r#"{"errcode":"0","rows":[{"accountIp":"10.0.0.1","accountMac":"CC","terminalType":"a","osInfo":"W","onlineTime":"t"},{"accountIp":"10.0.0.2","accountMac":"aa:bb","terminalType":"b","osInfo":"A"}]}"#;

#[test]
fn device_goes_offline() {
    let mut e = errand(true);
    let step = e.start(None, None);
    assert!(matches!(step.next, ErrandNext::Send { stage: ErrandStage::Captcha, .. }));
    let ok = r#"{"errcode":"0","data":{"verifyCode":"YQ=="}}"#;
    let step = e.on_reply(ErrandStage::Captcha, &reply_with_cookie(ok, "c=1"));
    match step.next {
        ErrandNext::AskCode { png, session } => {
            assert_eq!(png, b"a");
            assert_eq!(session, "自助会话: c=1 (脚本可配合 --offline-session 复用)");
        }
        other => panic!("{other:?}"),
    }
    let step = e.on_code(" 12ab\r\n");
    assert!(matches!(step.next, ErrandNext::Send { stage: ErrandStage::Login, .. }));
    let step = e.on_reply(ErrandStage::Login, &reply(r#"{"errcode":"0"}"#));
    assert!(matches!(step.next, ErrandNext::Send { stage: ErrandStage::Listing, .. }));
    let step = e.on_reply(ErrandStage::Listing, &reply(LIST));
    assert_eq!(text_of(&step.lines[0]), "log 自助接口: 按 MAC 下线 aa:bb (并清除绑定)...");
    let stage = match step.next {
        ErrandNext::Send { stage, call } => {
            assert_eq!(call.body.as_deref(), Some(r#"{"accountId":"u","accountMac":"aa:bb"}"#));
            assert_eq!(call.headers[0].1, "c=1");
            stage
        }
        other => panic!("{other:?}"),
    };
    let step = e.on_reply(stage, &reply(r#"{"errcode":"0","errmsg":"下线成功"}"#));
    assert_eq!(text_of(&step.lines[0]), "out 下线结果: 下线成功 (本机 10.0.0.2)");
    let step = e.on_reply(ErrandStage::Leaving, &Err("x".to_string()));
    assert!(matches!(step.next, ErrandNext::Test { wait_secs: 3 }));
    assert!(matches!(on_verdict(Some(false)).next, ErrandNext::Done { exit: 0 }));
    assert!(matches!(on_verdict(Some(true)).next, ErrandNext::Done { exit: 1 }));
    assert!(matches!(on_verdict(None).next, ErrandNext::Done { exit: 0 }));
}

#[test]
fn other_devices_stay_online() {
    let mut e = errand(true);
    e.mac = "DDDD".to_string();
    let step = e.on_reply(ErrandStage::Listing, &reply(LIST));
    assert!(matches!(step.next, ErrandNext::Done { exit: 3 }));
    let lines: Vec<String> = step.lines.iter().map(text_of).collect();
    assert_eq!(
        lines,
        vec![
            "out 在线列表有 2 台设备, 但没有本机(MAC/IP 均不匹配); 未做任何下线:",
            "out   10.0.0.1  [a:W]  CC",
            "out   10.0.0.2  [b:A]  aa:bb",
            "out 提示: 用 --adapter 指定本机网卡后重试",
        ]
    );
    let step = e.on_reply(ErrandStage::Listing, &reply(r#"{"errcode":"0","rows":[]}"#));
    assert!(matches!(step.next, ErrandNext::Done { exit: 0 }));
}

#[test]
fn listing_only_lists() {
    let mut e = errand(false);
    let step = e.start(Some("s=1".to_string()), Some("1234".to_string()));
    assert_eq!(e.spa.cookie, "s=1");
    assert!(matches!(step.next, ErrandNext::Send { stage: ErrandStage::Login, .. }));
    let step = e.on_reply(ErrandStage::Listing, &reply(LIST));
    assert!(matches!(step.next, ErrandNext::Done { exit: 0 }));
    let lines: Vec<String> = step.lines.iter().map(text_of).collect();
    assert_eq!(
        lines,
        vec![
            "out 账号 u 在线设备 2 台:",
            "out   IP=10.0.0.1  槽位=PC(W)  MAC=CC  上线时间=t",
            "out   IP=10.0.0.2  槽位=手机(A)  MAC=aa:bb  上线时间=",
        ]
    );
}

#[test]
fn errands_that_fail() {
    let mut e = errand(true);
    let step = e.start(Some("s".to_string()), None);
    assert_eq!(text_of(&step.lines[0]), "err !! --offline-code 与 --offline-session 必须同时提供");
    assert!(matches!(step.next, ErrandNext::Done { exit: 1 }));
    let step = e.on_code(" 123 ");
    assert_eq!(text_of(&step.lines[0]), "err !! 验证码不完整");
    let stage = ErrandStage::Kicking { ip: "i".to_string() };
    let step = e.on_reply(stage, &reply(r#"{"errcode":"-1","errmsg":"no"}"#));
    assert_eq!(text_of(&step.lines[0]), "err !! 下线失败: no");
    let step = e.on_reply(ErrandStage::Login, &Err("x".to_string()));
    assert_eq!(text_of(&step.lines[0]), "err !! self/login.do 请求失败: x");
}

#[test]
fn errand_hides_the_password() {
    let run = |password: &str| {
        let mut e = errand(true);
        e.password = password.to_string();
        let mut said = Vec::new();
        let ok = r#"{"errcode":"0","data":{"verifyCode":"YQ=="}}"#;
        let steps = vec![
            e.start(None, None),
            e.on_reply(ErrandStage::Captcha, &reply_with_cookie(ok, "c=1")),
            e.on_code("12ab"),
            e.on_reply(ErrandStage::Login, &reply(r#"{"errcode":"0"}"#)),
            e.on_reply(ErrandStage::Listing, &reply(LIST)),
        ];
        let mut bodies = Vec::new();
        for step in steps {
            said.extend(step.lines.iter().map(text_of));
            if let ErrandNext::Send { call, .. } = step.next {
                bodies.push(call.body.unwrap_or_default());
            }
        }
        (said, bodies)
    };
    let (one, sent) = run("secret-one");
    let (two, _) = run("secret-two");
    assert_eq!(one, two);
    assert!(one.iter().all(|line| !line.contains("secret")));
    assert_eq!(sent.iter().filter(|body| body.contains("secret-one")).count(), 1);
}
