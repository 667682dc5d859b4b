use campus_auth::auth::{probe_targets, Auth, ProbeState};
use campus_auth::detect::{connectivity_opening, is_decisive, Arrival, DetectNext, DetectStep};
use campus_auth::http::{HttpResponse, Reply};

fn response(status: u16, headers: &[(&str, &str)], body: &str) -> Reply {
    Ok(HttpResponse {
        status,
        headers: headers.iter().map(|(k, v)| (k.to_string(), v.to_string())).collect(),
        body: body.as_bytes().to_vec(),
    })
}

fn arrival(host: &str, state: ProbeState) -> Arrival {
    (host.to_string(), "/p".to_string(), state)
}

#[test]
fn first_verdict_stands() {
    let a = Auth::new("pc", None);
    let (open, detail, lines) = a.connectivity_test(&[
        arrival("a", ProbeState::Inconclusive),
        arrival("b", ProbeState::Unreachable("x".to_string())),
        arrival("c", ProbeState::Online),
        arrival("d", ProbeState::Captive("http://p/".to_string())),
    ]);
    assert_eq!((open, detail.as_str()), (Some(true), "c/p"));
    assert_eq!(lines, vec!["探测 b/p -> 网络异常: x", "探测 c/p -> 200/204 无重定向, 已联网(已认证)"]);
    let (open, detail, lines) = a.connectivity_test(&[
        arrival("d", ProbeState::Captive("http://p/".to_string())),
        arrival("c", ProbeState::Online),
    ]);
    assert_eq!((open, detail.as_str()), (Some(false), "http://p/"));
    assert_eq!(lines, vec!["探测 d/p -> 302 被劫持, 未认证"]);
}

#[test]
fn no_verdict() {
    let a = Auth::new("pc", None);
    let (open, detail, lines) = a.connectivity_test(&[
        arrival("a", ProbeState::Unreachable("x".to_string())),
        arrival("b", ProbeState::Unreachable("y".to_string())),
        arrival("c", ProbeState::Inconclusive),
    ]);
    assert_eq!((open, detail.as_str()), (None, "y"));
    assert_eq!(lines.last().map(String::as_str), Some("三个探测地址均网络异常: 网卡可能未连接"));
    let (open, detail, lines) = a.connectivity_test(&[]);
    assert_eq!((open, detail.as_str()), (None, ""));
    assert_eq!(lines, vec!["三个探测地址均无结论"]);
    assert_eq!(connectivity_opening(3), "联通测试开始(并发 3 个探测地址)...");
}

fn search(portal: Option<&str>, replies: Vec<Reply>) -> (usize, Vec<String>, Option<Option<String>>) {
    let mut a = Auth::new("pc", None);
    a.set_portal_url(portal.map(|s| s.to_string()));
    let targets = probe_targets(Some("a/x,b"));
    let mut step = a.detect_start(&targets);
    let mut lines = Vec::new();
    let mut sent = 0;
    let mut replies = replies.into_iter();
    loop {
        let DetectStep { lines: more, next } = step;
        lines.extend(more);
        match next {
            DetectNext::Send { stage, call } => {
                assert_eq!(call.method, "GET");
                assert_eq!(call.body, None);
                sent += 1;
                match replies.next() {
                    Some(reply) => step = a.detect_portal(&targets, stage, &reply),
                    None => return (sent, lines, None),
                }
            }
            DetectNext::Done { portal } => return (sent, lines, Some(portal)),
        }
    }
}

#[test]
fn portal_shown_by_a_probe() {
    let (sent, lines, end) = search(
        None,
        vec![
            Err("x".to_string()),
            response(302, &[("location", "http://p:8/login?x")], ""),
            response(302, &[("location", "/next")], ""),
            response(200, &[], "<input type='password'>"),
        ],
    );
    assert_eq!(end, Some(Some("http://p:8".to_string())));
    assert_eq!(sent, 4);
    assert_eq!(
        lines,
        vec![
            "探测 b/ -> 302 被劫持: http://p:8/login?x",
            "  跳转 http://p:8/login?x -> http://p:8/next",
            "  登录页正常 (最终地址 http://p:8/next)",
        ]
    );
}

#[test]
fn portal_shown_stands_without_its_page() {
    let redirect = || response(302, &[("location", "http://p/")], "");
    let (_, lines, end) = search(None, vec![redirect(), Err("e".to_string())]);
    assert_eq!(end, Some(Some("http://p".to_string())));
    assert_eq!(lines[1], "  登录页抓取失败: e");
    let (_, lines, end) = search(None, vec![redirect(), response(200, &[], "hi")]);
    assert_eq!(end, Some(Some("http://p".to_string())));
    assert_eq!(lines[1], "  登录页内容不像门户登录页 (最终地址 http://p/)");
}

#[test]
fn given_portal_is_verified() {
    let silent = || vec![Err("x".to_string()), response(200, &[], "")];
    let mut replies = silent();
    replies.push(response(302, &[("location", "http://q/login")], ""));
    replies.push(response(200, &[], "portal"));
    let (_, lines, end) = search(Some("http://g"), replies);
    assert_eq!(end, Some(Some("http://q".to_string())));
    assert_eq!(lines[0], "无劫持响应, 验证配置的门户地址: http://g");
    assert_eq!(lines[2], "  可达, 像门户登录页 (最终地址 http://q/login)");
    let mut replies = silent();
    replies.push(response(404, &[], ""));
    assert_eq!(search(Some("http://g"), replies).2, Some(None));
    assert_eq!(search(None, silent()).2, Some(None));
}

#[test]
fn what_decides() {
    assert!(is_decisive(&arrival("a", ProbeState::Online)));
    assert!(is_decisive(&arrival("a", ProbeState::Captive("http://p/".to_string()))));
    assert!(!is_decisive(&arrival("a", ProbeState::Unreachable("x".to_string()))));
    assert!(!is_decisive(&arrival("a", ProbeState::Inconclusive)));
}
