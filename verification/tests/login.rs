use campus_auth::auth::{probe_targets, Auth};
use campus_auth::http::{HttpResponse, Reply};
use campus_auth::ipv4::Ipv4;
use campus_auth::login::{LoginCode, LoginNext, LoginStage, LoginStep};

const PAGE: &str = r#"<html><input type="hidden" name="hostIp" value="http://127.0.0.1:8082/">
<input type="hidden" name="templatetype" value="1"><img src="uploads/pc/x.png">
<input type="text" name="userId"><input type="password" name="passwd"></html>"#;

fn response(status: u16, headers: &[(&str, &str)], body: &str) -> Reply {
    Ok(HttpResponse {
        status,
        headers: headers.iter().map(|(k, v)| (k.to_string(), v.to_string())).collect(),
        body: body.as_bytes().to_vec(),
    })
}

fn online() -> Reply {
    response(200, &[], "Microsoft Connect Test")
}

fn captive() -> Reply {
    response(302, &[("location", "http://10.255.2.252/webauth.do?wlanuserip=1.2.3.4")], "")
}

fn message(text: &str) -> Reply {
    response(200, &[], &format!("<input id=\"errMessage\" value=\"{text}\">"))
}

/// Runs a login on given replies: the requests, the lines and the end.
fn run(kind: &str, portal: Option<&str>, replies: Vec<Reply>) -> (Vec<(String, String, String, u64)>, Vec<String>, Option<(bool, LoginCode, String)>, Option<String>) {
    let mut auth = Auth::new(kind, None);
    auth.set_portal_url(portal.map(|s| s.to_string()));
    let targets = probe_targets(None);
    let mut sent = Vec::new();
    let mut lines = Vec::new();
    let mut step = auth.login_start(&targets, "20230001");
    let mut replies = replies.into_iter();
    loop {
        let LoginStep { lines: more, next } = step;
        lines.extend(more);
        match next {
            LoginNext::Send { stage, wait_secs, call } => {
                sent.push((call.method.clone(), call.url.clone(), call.body.clone().unwrap_or_default(), wait_secs));
                match replies.next() {
                    Some(reply) => step = auth.login(&targets, "20230001", "s3cret密", stage, &reply),
                    None => return (sent, lines, None, auth.discovered_base),
                }
            }
            LoginNext::Done { ok, code, detail } => {
                return (sent, lines, Some((ok, code, detail)), auth.discovered_base);
            }
        }
    }
}

#[test]
fn open_network_needs_no_login() {
    let (sent, lines, end, base) = run("pc", None, vec![Err("x".to_string()), online()]);
    assert_eq!(end, Some((true, LoginCode::Already, "已在线".to_string())));
    assert_eq!(sent.len(), 2);
    assert!(sent.iter().all(|(m, _, _, _)| m == "GET"));
    assert_eq!(base, None);
    assert_eq!(lines[0], "=== 开始认证: 账号=20230001 设备=电脑端 源地址=系统默认路由 ===");
    assert_eq!(lines[2], "探测 connect.rom.miui.com/generate_204 -> 已放行, 本机已在线");
}

#[test]
fn whole_login_opens_the_network() {
    let page = response(200, &[("set-cookie", "JSESSIONID-BOSS-1=abc; Path=/")], PAGE);
    let (sent, lines, end, base) = run("pc", None, vec![captive(), page, message("认证成功"), captive(), online()]);
    assert_eq!(end, Some((true, LoginCode::Success, "认证成功".to_string())));
    assert_eq!(base.as_deref(), Some("http://10.255.2.252"));
    assert_eq!(sent.len(), 5);
    assert_eq!(sent[2].0, "POST");
    assert_eq!(sent[2].1, "http://10.255.2.252/webauth.do?wlanuserip=1.2.3.4");
    assert!(sent[2].2.starts_with("hostIp=http%3A%2F%2F127.0.0.1%3A8082%2F&templatetype=1&userId=20230001&passwd=s3cret%E5%AF%86&scheme=http"));
    assert_eq!(sent.iter().filter(|(m, _, _, _)| m == "POST").count(), 1);
    assert_eq!((sent[3].3, sent[4].3), (3, 3));
    assert_eq!(sent[3].1, "http://www.msftconnecttest.com/connecttest.txt");
    assert!(lines.contains(&"第 2 步完成: 已取得会话 Cookie (JSESSIONID-BOSS-1)".to_string()));
    assert!(lines.contains(&"  登录页字段: hostIp=http://127.0.0.1:8082/".to_string()));
    assert!(lines.contains(&"  门户按本次 UA 下发: 电脑模板 (页面 templatetype=1)".to_string()));
    assert!(lines.contains(&"  认证身份: 设备=电脑端 templatetype=1".to_string()));
    assert!(lines.contains(&"复核第 1 次: 仍被劫持, 继续等待...".to_string()));
    assert!(lines.contains(&"第 4 步: 等待 3 秒后复核放行 (第 2/2 次)...".to_string()));
    assert_eq!(lines.last().map(String::as_str), Some("=== 认证成功, 已上线! ==="));
}

#[test]
fn log_never_shows_the_password() {
    let page = response(200, &[], &PAGE.replace("name=\"passwd\"", "name=\"pwd\""));
    let (_, lines, _, _) = run("mobile", None, vec![captive(), page, message("请稍候"), captive(), captive()]);
    assert!(lines.iter().all(|l| !l.contains("s3cret")));
    assert!(lines.iter().any(|l| l.contains("pwd=***")));
    assert!(lines.contains(&"  !! 警告: 手机端 UA 却被门户下发电脑模板, 设备类型可能被判为电脑".to_string()));
    assert!(lines.contains(&"  认证身份: 设备=手机端 templatetype=2".to_string()));
}

#[test]
fn words_of_the_portal_are_no_success() {
    let page = response(200, &[], "");
    let (sent, lines, end, _) = run("pc", None, vec![captive(), page, message("认证成功"), captive(), Err("x".to_string())]);
    assert_eq!(end, Some((false, LoginCode::Failure, "认证成功".to_string())));
    assert_eq!(sent.len(), 5);
    assert!(lines.contains(&"复核第 2 次: 无结论, 继续等待...".to_string()));
    assert!(lines.contains(&"  最后的门户消息: 认证成功".to_string()));
    let page = response(200, &[], "");
    let (_, lines, end, _) = run("pc", None, vec![captive(), page, response(200, &[], ""), captive(), captive()]);
    assert_eq!(end, Some((false, LoginCode::Failure, "复核未放行".to_string())));
    assert!(lines.contains(&"  门户未返回错误消息, 视为受理".to_string()));
    assert!(lines.contains(&"第 3 步完成: 认证请求已提交 (HTTP 200, 0 字节)".to_string()));
}

#[test]
fn account_in_use_is_left_alone() {
    for word in ["已在线", "重复", "超限", "终端", "绑定", "占用"] {
        let (sent, lines, end, _) = run("pc", None, vec![captive(), response(200, &[], PAGE), message(word)]);
        assert_eq!(end, Some((false, LoginCode::Conflict, word.to_string())));
        assert_eq!(sent.len(), 3);
        assert!(lines.contains(&"---- 请手动下线后重试 ----".to_string()));
    }
}

#[test]
fn wrong_password_ends_the_login() {
    let (sent, lines, end, _) = run("pc", None, vec![captive(), response(200, &[], PAGE), message("密码错误, 终端")]);
    assert_eq!(end, Some((false, LoginCode::BadPassword, "密码错误, 终端".to_string())));
    assert_eq!(sent.len(), 3);
    assert!(lines.contains(&"  门户返回消息: 密码错误, 终端".to_string()));
}

#[test]
fn page_in_gbk_is_read() {
    let mut body = b"<input id='errMessage' value='".to_vec();
    body.extend_from_slice(&[0xC3, 0xDC, 0xC2, 0xEB, 0xB4, 0xED, 0xCE, 0xF3]);
    body.extend_from_slice(b"'>");
    let reply: Reply = Ok(HttpResponse { status: 200, headers: Vec::new(), body });
    let (_, _, end, _) = run("pc", None, vec![captive(), response(200, &[], PAGE), reply]);
    assert_eq!(end, Some((false, LoginCode::BadPassword, "密码错误".to_string())));
}

#[test]
fn failures_on_the_way() {
    let none: Vec<Reply> = vec![Err("a".to_string()), response(500, &[], ""), response(302, &[("location", "https://www.baidu.com/")], "")];
    let (sent, _, end, _) = run("pc", None, none);
    let (ok, code, detail) = end.unwrap();
    assert!(!ok && code == LoginCode::NoPortal && detail.starts_with("未探测到门户"));
    assert_eq!(sent.len(), 3);

    let given: Vec<Reply> = vec![Err("a".to_string()), Err("b".to_string()), Err("c".to_string()), Err("超时".to_string())];
    let (sent, lines, end, base) = run("pc", Some("http://10.10.0.1"), given);
    assert_eq!(end, Some((false, LoginCode::Unreachable, "门户连接失败: 超时".to_string())));
    assert_eq!(sent[3].1, "http://10.10.0.1");
    assert_eq!(base, None);
    assert!(lines.contains(&"探测不到劫持响应, 改用配置的门户地址: http://10.10.0.1".to_string()));

    let (_, _, end, _) = run("pc", None, vec![captive(), response(200, &[], PAGE), Err("断开".to_string())]);
    assert_eq!(end, Some((false, LoginCode::Failure, "POST 失败: 断开".to_string())));

    let hop = || response(302, &[("location", "/again")], "");
    let (sent, _, end, _) = run("pc", None, vec![captive(), hop(), hop(), hop()]);
    assert_eq!(end, Some((false, LoginCode::Unreachable, "门户连接失败: 跳转次数过多, 未拿到登录页".to_string())));
    assert_eq!(sent.len(), 4);
}

#[test]
fn form_answers_its_page() {
    let mut auth = Auth::new("pc", Some(Ipv4 { a: 10, b: 200, c: 0, d: 9 }));
    let targets = probe_targets(None);
    let first = auth.login_start(&targets, "u");
    assert_eq!(first.lines[0], "=== 开始认证: 账号=u 设备=电脑端 源地址=10.200.0.9 ===");
    let stage = LoginStage::Fetching { url: "http://p/x?y".to_string(), hop: 1 };
    let page = response(200, &[("set-cookie", "c=1; d")], PAGE);
    match auth.login(&targets, "u", "p", stage, &page).next {
        LoginNext::Send { stage, call, .. } => {
            assert!(matches!(stage, LoginStage::Submitting));
            assert_eq!(call.url, "http://p/x?y");
            let names: Vec<&str> = call.headers.iter().map(|(k, _)| k.as_str()).collect();
            assert_eq!(names, vec!["User-Agent", "Accept", "Accept-Language", "Content-Type", "Referer", "Cookie"]);
            assert_eq!(call.headers[4].1, "http://p/x?y");
            assert_eq!(call.headers[5].1, "c=1");
        }
        other => panic!("{other:?}"),
    }
}

#[test]
fn login_ends_whatever_comes() {
    let hop = || response(302, &[("location", "http://10.1.1.1/x")], "");
    let replies: Vec<Reply> = vec![Err("e".to_string()), Err("e".to_string()), hop(), hop(), hop(), response(200, &[], PAGE), message("稍候"), hop(), hop()];
    let (sent, _, end, _) = run("pc", None, replies);
    assert!(end.is_some());
    assert_eq!(sent.len(), 9);
}
