use campus_auth::auth::{
    captive_target, looks_like_portal_page, mobile_ua, mobile_ua_at, probe_call, probe_targets,
    url_base, url_host, Auth, PageStep, ProbeState, MOBILE_DEVICES,
};
use campus_auth::common::{PROBE_URLS, SELF_SERVICE_URL, UA_PC};
use campus_auth::http::{HttpResponse, Reply};
use campus_auth::ipv4::Ipv4;

fn response(status: u16, headers: &[(&str, &str)], body: &str) -> Reply {
    Ok(HttpResponse {
        status,
        headers: headers.iter().map(|(k, v)| (k.to_string(), v.to_string())).collect(),
        body: body.as_bytes().to_vec(),
    })
}

#[test]
fn same_host_redirect_is_not_captive() {
    assert_eq!(captive_target("www.baidu.com", "https://www.baidu.com/"), None);
    assert_eq!(captive_target("www.baidu.com", "http://www.baidu.com/index.html"), None);
    assert_eq!(captive_target("WWW.Baidu.com", "https://www.baidu.com/"), None);
}

#[test]
fn www_makes_no_other_host() {
    assert_eq!(captive_target("baidu.com", "http://www.baidu.com/"), None);
    assert_eq!(captive_target("www.baidu.com", "https://baidu.com/x"), None);
    assert_eq!(captive_target("WWW.baidu.com", "http://Baidu.com:8080/x"), None);
    assert_eq!(captive_target("h", "https://h?x"), None);
    assert!(captive_target("www.baidu.com", "http://m.baidu.com/").is_some());
}

#[test]
fn other_school_portal_is_captive() {
    let got = captive_target(
        "www.msftconnecttest.com",
        "http://10.10.0.1/portal/login?wlanuserip=1.2.3.4",
    );
    assert_eq!(got.as_deref(), Some("http://10.10.0.1/portal/login?wlanuserip=1.2.3.4"));
    assert!(captive_target("www.msftconnecttest.com", "http://auth.school.edu.cn/wifi/login").is_some());
    assert!(captive_target("connect.rom.miui.com", "http://10.0.0.9:8080/portal").is_some());
}

#[test]
fn relative_location_resolved_against_requested_host() {
    let got = captive_target("www.msftconnecttest.com", "/portal/login?mac=aabbccddeeff");
    assert_eq!(
        got.as_deref(),
        Some("http://www.msftconnecttest.com/portal/login?mac=aabbccddeeff")
    );
}

#[test]
fn empty_or_odd_location() {
    assert_eq!(captive_target("h", ""), None);
    assert_eq!(captive_target("h", "   "), None);
}

#[test]
fn location_is_trimmed() {
    assert_eq!(captive_target("h", "  /a \r\n").as_deref(), Some("http://h/a"));
    assert_eq!(captive_target("h", " http://p/x ").as_deref(), Some("http://p/x"));
    assert_eq!(captive_target("h", "?x=1"), None);
    assert_eq!(captive_target("h", "https:///x").as_deref(), Some("https:///x"));
}

#[test]
fn url_host_and_base() {
    assert_eq!(url_host("http://10.10.0.1:8080/portal/login?x=1"), "10.10.0.1");
    assert_eq!(
        url_host("https://www.msftconnecttest.com/connecttest.txt"),
        "www.msftconnecttest.com"
    );
    assert_eq!(url_host("10.10.0.1/portal"), "10.10.0.1");
    assert_eq!(url_base("http://10.10.0.1:8080/portal/login?x=1"), "http://10.10.0.1:8080");
    assert_eq!(
        url_base("http://10.255.2.252/portal/login?wlanuserip=1.2.3.4"),
        "http://10.255.2.252"
    );
}

#[test]
fn base_of_a_base_and_of_no_scheme() {
    assert_eq!(url_base(&url_base("https://a.b:1/c?d#e")), "https://a.b:1");
    assert_eq!(url_base("a.b#c"), "http://a.b");
    assert_eq!(url_host("http://a?b:c"), "a");
}

#[test]
fn portal_page_detection() {
    assert!(looks_like_portal_page(r#"<input type="password" name="pwd">"#));
    assert!(looks_like_portal_page("...wlanuserip=1.2.3.4..."));
    assert!(looks_like_portal_page("<title>Portal Login</title>"));
    assert!(!looks_like_portal_page("<!doctype html><html><body>hello</body></html>"));
}

#[test]
fn portal_page_words() {
    assert!(looks_like_portal_page("<INPUT TYPE='PASSWORD'>"));
    assert!(looks_like_portal_page("a/LOGIN.DO?x"));
    assert!(looks_like_portal_page("/self/index.html"));
    assert!(looks_like_portal_page("bossWeb"));
    assert!(looks_like_portal_page("<input name=p type=Password>"));
    assert!(!looks_like_portal_page("<input name=p type=text> type=password"));
    assert!(looks_like_portal_page("石斧"));
    assert!(!looks_like_portal_page(""));
}

#[test]
fn probe_targets_override() {
    assert_eq!(probe_targets(None).len(), PROBE_URLS.len());
    let t = probe_targets(Some("127.0.0.1:8123/portal, example.com"));
    assert_eq!(t.len(), 2);
    assert_eq!(t[0], ("127.0.0.1:8123".to_string(), "/portal".to_string()));
    assert_eq!(t[1], ("example.com".to_string(), "/".to_string()));
}

#[test]
fn blank_override_lists_nothing() {
    let builtin = probe_targets(None);
    assert_eq!(builtin[0], ("www.msftconnecttest.com".to_string(), "/connecttest.txt".to_string()));
    assert_eq!(builtin[1], ("connect.rom.miui.com".to_string(), "/generate_204".to_string()));
    assert_eq!(builtin[2], ("www.baidu.com".to_string(), "/".to_string()));
    assert_eq!(probe_targets(Some("")), builtin);
    assert_eq!(probe_targets(Some(" , ,")), builtin);
    assert_eq!(probe_targets(Some(",a/b/c,")), vec![("a".to_string(), "/b/c".to_string())]);
}

#[test]
fn phones_are_chosen_by_seed() {
    assert_eq!(
        mobile_ua(12345),
        "Mozilla/5.0 (Linux; Android 13; SM-S911B) AppleWebKit/537.36 (KHTML, like Gecko) Chrome/120.0.0.0 Mobile Safari/537.36"
    );
    assert!(mobile_ua(0).contains("Pixel 7 Pro"));
}

#[test]
fn kinds_of_device() {
    let source = Some(Ipv4 { a: 10, b: 200, c: 1, d: 2 });
    let pc = Auth::new("pc", source);
    assert_eq!(pc.ua, UA_PC);
    assert!(!pc.is_mobile);
    assert_eq!(pc.device_label(), "电脑端");
    assert_eq!(pc.client.source, source);
    assert_eq!(pc.client.timeout_secs, 8);
    let phone = Auth::new("mobile", None);
    assert!(phone.is_mobile);
    assert_eq!(phone.device_label(), "手机端");
    assert!(phone.ua.contains("Linux; Android 13") && phone.ua.contains(" Mobile "));
    assert!(MOBILE_DEVICES.iter().any(|d| phone.ua.contains(d)));
    let own = Auth::new("My Mobile/1", None);
    assert_eq!(own.ua, "My Mobile/1");
    assert!(own.is_mobile);
    assert!(!Auth::new("curl/8", None).is_mobile);
}

#[test]
fn blank_portal_is_none() {
    let mut a = Auth::new("pc", None);
    a.set_portal_url(Some("http://10.10.0.1".to_string()));
    assert_eq!(a.portal_url.as_deref(), Some("http://10.10.0.1"));
    a.set_portal_url(Some("  ".to_string()));
    assert_eq!(a.portal_url, None);
    a.set_portal_url(None);
    assert_eq!(a.portal_url, None);
}

#[test]
fn probes_read_the_headers_alone() {
    let a = Auth::new("pc", None);
    assert!(matches!(a.probe_one("h", &response(200, &[], "<input type=\"password\">")), ProbeState::Online));
    assert!(matches!(a.probe_one("h", &response(204, &[], "")), ProbeState::Online));
    assert!(matches!(a.probe_one("h", &response(404, &[], "")), ProbeState::Inconclusive));
    assert!(matches!(
        a.probe_one("h", &response(200, &[("location", "http://h/x")], "")),
        ProbeState::Inconclusive
    ));
    match a.probe_one("h", &response(302, &[("location", "http://p/login?x")], "")) {
        ProbeState::Captive(url) => assert_eq!(url, "http://p/login?x"),
        other => panic!("{other:?}"),
    }
    match a.probe_one("h", &Err("超时".to_string())) {
        ProbeState::Unreachable(e) => assert_eq!(e, "超时"),
        other => panic!("{other:?}"),
    }
    let call = probe_call("h:81", "/p?q");
    assert_eq!(call.method, "GET");
    assert_eq!(call.url, "http://h:81/p?q");
    assert_eq!(call.headers, vec![("Accept".to_string(), "*/*".to_string())]);
    assert_eq!(call.body, None);
}

#[test]
fn login_page_is_fetched_over_two_redirects() {
    let a = Auth::new("pc", None);
    let (lines, step) = a.fetch_login_page("http://p:8/x/y/", 0, &response(302, &[("location", " /login ")], ""));
    assert_eq!(lines, vec!["  跳转 http://p:8/x/y/ -> http://p:8/login".to_string()]);
    assert!(matches!(step, PageStep::Follow(u) if u == "http://p:8/login"));
    let (_, step) = a.fetch_login_page("http://p/x//", 1, &response(302, &[("location", "y?z")], ""));
    assert!(matches!(step, PageStep::Follow(u) if u == "http://p/x/y?z"));
    let (_, step) = a.fetch_login_page("http://p/x", 1, &response(301, &[("location", "https://q/")], ""));
    assert!(matches!(step, PageStep::Follow(u) if u == "https://q/"));
    let (lines, step) = a.fetch_login_page("http://p", 2, &response(302, &[("location", "/z")], ""));
    assert_eq!(lines, vec!["  跳转 http://p -> http://p/z".to_string()]);
    assert!(matches!(step, PageStep::Failed(e) if e == "跳转次数过多, 未拿到登录页"));
}

#[test]
fn login_page_comes_with_a_cookie() {
    let a = Auth::new("pc", None);
    let (lines, step) = a.fetch_login_page(
        "http://p",
        0,
        &response(200, &[("set-cookie", " JSESSIONID-BOSS-1=AB; Path=/; HttpOnly")], "<html>登录</html>"),
    );
    assert!(lines.is_empty());
    match step {
        PageStep::Page { html, cookie } => {
            assert_eq!(html, "<html>登录</html>");
            assert_eq!(cookie, "JSESSIONID-BOSS-1=AB");
        }
        other => panic!("{other:?}"),
    }
    let (_, step) = a.fetch_login_page("http://p", 0, &response(503, &[], ""));
    assert!(matches!(step, PageStep::Failed(e) if e == "登录页 HTTP 503"));
    let (_, step) = a.fetch_login_page("http://p", 0, &Err("e".to_string()));
    assert!(matches!(step, PageStep::Failed(e) if e == "e"));
    let call = a.page_call("http://p/x");
    assert_eq!(call.headers[0], ("User-Agent".to_string(), UA_PC.to_string()));
    assert_eq!(call.headers.len(), 3);
}

#[test]
fn advice_names_the_self_service() {
    let lines = Auth::new("pc", None).print_manual_offline_advice();
    assert_eq!(lines.len(), 5);
    assert_eq!(lines[1], format!("1. 打开自助管理界面: {SELF_SERVICE_URL}"));
    assert!(lines[4].contains("不会自动顶号"));
}

#[test]
fn portal_address_is_absolute() {
    assert_eq!(captive_target("h", "portal/login").as_deref(), Some("http://h/portal/login"));
    assert_eq!(captive_target("h:81", "login.do?x=1").as_deref(), Some("http://h:81/login.do?x=1"));
    assert_eq!(captive_target("h", "HTTP://p/x").as_deref(), Some("http://p/x"));
    assert_eq!(captive_target("h", "hTTps://P:1/x").as_deref(), Some("https://P:1/x"));
    assert_eq!(captive_target("h", "HTTP://www.H:80/x"), None);
    assert_eq!(captive_target("h", " ftp://p/x ").as_deref(), Some("http://p/x"));
    assert_eq!(captive_target("h", "a?u=http://p/x").as_deref(), Some("http://h/a?u=http://p/x"));
    assert_eq!(captive_target("h", "1p://x").as_deref(), Some("http://h/1p://x"));
    assert_eq!(captive_target("h", "h/login"), None);
    for loc in ["portal", "/portal", "//p/x", "http://p", "https://p:1/x", "javascript:x"] {
        let url = captive_target("h", loc).unwrap();
        assert!(url.starts_with("http://") || url.starts_with("https://"), "{url}");
    }
}

#[test]
fn redirects_stay_in_the_directory() {
    let a = Auth::new("pc", None);
    let next = |url: &str, loc: &str| match a.fetch_login_page(url, 0, &response(302, &[("location", loc)], "")).1 {
        PageStep::Follow(u) => u,
        other => panic!("{other:?}"),
    };
    assert_eq!(next("http://10.0.0.1/a/index.html", "login.do"), "http://10.0.0.1/a/login.do");
    assert_eq!(next("http://10.0.0.1/a/", "login.do"), "http://10.0.0.1/a/login.do");
    assert_eq!(next("http://10.0.0.1/index.html", "login.do"), "http://10.0.0.1/login.do");
    assert_eq!(next("http://10.0.0.1:8080", "portal/login?x=/y"), "http://10.0.0.1:8080/portal/login?x=/y");
    assert_eq!(next("http://p/a/b?from=http://q/r/", "c"), "http://p/a/c");
    assert_eq!(next("http://p#x/y", "c"), "http://p/c");
    assert_eq!(next("https://p/a/b/c", "d/e"), "https://p/a/b/d/e");
}

#[test]
fn phones_are_chosen_by_time() {
    assert_eq!(mobile_ua_at(None), mobile_ua(12345));
    assert_eq!(mobile_ua_at(Some((5, 3))), mobile_ua(6));
    assert_eq!(mobile_ua_at(Some((1789588800, 0))), mobile_ua(1789588800));
}

#[test]
fn base_has_the_host_of_the_url() {
    for url in ["http://a.b:1/c", "https://a.b?c", "a.b/c", "http://", ""] {
        assert_eq!(url_host(&url_base(url)), url_host(url));
        assert_eq!(url_base(&url_base(url)), url_base(url));
    }
}
