use campus_auth::cli::{
    check_report, detect_report, early_exit, login_report, parse_args, print_help, EarlyEnd,
    Options, Parsed, Say, Task,
};
use campus_auth::gui::{
    collect_params, current_ua_kind, dp, first_line_shown, handle_command, history_text,
    log_to_cut, login_feedback, restored_line, verdict_line, Command, Sign,
};
use campus_auth::ipv4::Ipv4;
use campus_auth::login::LoginCode;
use campus_auth::net::Adapter;
use campus_auth::store::Store;

fn parse(args: &[&str]) -> Parsed {
    let args: Vec<String> = args.iter().map(|s| s.to_string()).collect();
    parse_args(&args)
}

fn options(args: &[&str]) -> Options {
    match parse(args) {
        Parsed::Run(o) => o,
        other => panic!("{other:?}"),
    }
}

fn wlan() -> Adapter {
    Adapter {
        name: "WLAN".to_string(),
        desc: String::new(),
        mac: String::new(),
        status: String::new(),
        ipv4: vec![Ipv4 { a: 10, b: 200, c: 0, d: 7 }],
    }
}

#[test]
fn flags_are_read() {
    let o = options(&[
        "--username", "u", "--password", "p", "--ua", "mobile", "--adapter", "WLAN", "--source",
        "10.200.1.2", "--portal", "http://p", "--offline-code", "12ab", "--offline-session", "s",
        "--check", "--list-adapters", "--save", "--forget", "--ask-password", "--offline",
        "--list-online", "--detect-portal", "--save-portal",
    ]);
    assert_eq!((o.username.as_str(), o.password.as_str(), o.ua.as_str()), ("u", "p", "mobile"));
    assert_eq!((o.adapter.as_str(), o.portal.as_str()), ("WLAN", "http://p"));
    assert_eq!(o.source, Some(Ipv4 { a: 10, b: 200, c: 1, d: 2 }));
    assert_eq!((o.offline_code.as_deref(), o.offline_session.as_deref()), (Some("12ab"), Some("s")));
    assert!(o.check && o.list && o.save && o.forget && o.ask_password && o.offline);
    assert!(o.list_online && o.detect_portal && o.save_portal);
    let none = options(&[]);
    assert_eq!((none.ua.as_str(), none.username.as_str(), none.source), ("pc", "", None));
    assert!(!none.check && !none.save && none.offline_code.is_none());
}

#[test]
fn values_may_be_missing() {
    assert_eq!(options(&["--username"]).username, "");
    assert_eq!(options(&["--offline-code"]).offline_code, None);
    assert_eq!(options(&["--username", "--check"]).username, "--check");
    assert_eq!(options(&["--username", "a", "--username", "b"]).username, "b");
}

#[test]
fn wrong_arguments_are_refused() {
    for args in [&["--ua"][..], &["--ua", "tablet"][..]] {
        assert!(matches!(parse(args), Parsed::Refused { message, with_help: false } if message == "--ua 需要 pc 或 mobile"));
    }
    for args in [&["--source"][..], &["--source", "1.2.3"][..]] {
        assert!(matches!(parse(args), Parsed::Refused { message, with_help: false } if message == "--source 需要合法 IPv4 地址"));
    }
    assert!(matches!(parse(&["--check", "x"]), Parsed::Refused { message, with_help: true } if message == "未知参数: x"));
    assert!(matches!(parse(&["--check", "-h", "x"]), Parsed::Help));
    assert!(matches!(parse(&["--help"]), Parsed::Help));
    assert!(print_help().starts_with("贺州学院校园网认证工具 (Rust 原生版)\n用法:\n  campus-auth-cli.exe --check"));
}

#[test]
fn one_task_at_a_time() {
    assert_eq!(options(&[]).task(), Task::Login);
    assert_eq!(options(&["--offline"]).task(), Task::Offline);
    assert_eq!(options(&["--offline", "--list-online"]).task(), Task::ListOnline);
    assert_eq!(options(&["--list-online", "--check"]).task(), Task::Check);
    assert_eq!(options(&["--check", "--detect-portal"]).task(), Task::DetectPortal);
    assert_eq!(options(&["--detect-portal", "--list-adapters"]).task(), Task::ListAdapters);
    assert_eq!(options(&["--list-adapters", "--forget"]).task(), Task::Forget);
}

#[test]
fn source_is_chosen() {
    let adapters = vec![wlan()];
    let (ip, say) = options(&["--source", "1.2.3.4", "--adapter", "x"]).choose_source(&adapters).unwrap();
    assert_eq!(ip, Some(Ipv4 { a: 1, b: 2, c: 3, d: 4 }));
    assert!(say.is_none());
    let (ip, _) = options(&["--adapter", "wlan"]).choose_source(&adapters).unwrap();
    assert_eq!(ip, Some(Ipv4 { a: 10, b: 200, c: 0, d: 7 }));
    assert_eq!(
        options(&["--adapter", "eth"]).choose_source(&adapters).unwrap_err(),
        "!! 网卡 \"eth\" 未找到或没有 IPv4 地址"
    );
    let (ip, say) = options(&[]).choose_source(&adapters).unwrap();
    assert_eq!(ip, Some(Ipv4 { a: 10, b: 200, c: 0, d: 7 }));
    assert!(matches!(say, Some(Say::Out(s)) if s == "自动选择网卡: WLAN (10.200.0.7)"));
    let (ip, say) = options(&[]).choose_source(&[]).unwrap();
    assert_eq!(ip, None);
    assert!(matches!(say, Some(Say::Error(s)) if s.starts_with("警告: 未自动找到校园网段")));
}

#[test]
fn portal_and_credentials_are_chosen() {
    let o = options(&["--portal", "http://a"]);
    assert_eq!(o.choose_portal("http://b"), "http://a");
    assert_eq!(o.portal_to_keep(), Some("http://a"));
    assert_eq!(options(&["--portal", " "]).choose_portal("http://b"), "http://b");
    assert_eq!(options(&[]).portal_to_keep(), None);
    assert_eq!(o.base_to_keep(Some("http://c")), None);
    assert_eq!(options(&["--save-portal"]).base_to_keep(Some("http://c")), Some("http://c"));
    let pair = |u: &str, p: &str| Some((u.to_string(), p.to_string()));
    let o = options(&["--username", "u", "--password", "p"]);
    assert_eq!(o.choose_credentials("k", Some("kp"), ""), pair("u", "p"));
    assert_eq!(options(&[]).choose_credentials("k", Some("kp"), ""), pair("k", "kp"));
    assert_eq!(options(&["--ask-password"]).choose_credentials("k", Some("kp"), " t \n"), pair("k", "t"));
    assert_eq!(options(&["--ask-password"]).choose_credentials("k", Some("kp"), " \n"), None);
    assert_eq!(options(&[]).choose_credentials("k", None, ""), None);
    assert_eq!(options(&["--password", "p"]).choose_credentials("", None, ""), None);
}

#[test]
fn exit_status() {
    for (code, exit, word) in [
        (LoginCode::Already, 0, "结论: 本机已在线, 无需操作"),
        (LoginCode::Success, 0, "结论: 认证成功"),
        (LoginCode::NoPortal, 2, "结论: 未探测到门户——本机可能不在校园网, 或该校 AC 不用 302 劫持"),
        (LoginCode::BadPassword, 1, "结论: 密码错误"),
        (LoginCode::Unreachable, 1, "结论: 认证失败 (d)"),
        (LoginCode::Failure, 1, "结论: 认证失败 (d)"),
    ] {
        let (lines, got) = login_report(code, "d");
        assert_eq!((got, lines[0].as_str()), (exit, word));
    }
    let (lines, exit) = login_report(LoginCode::Conflict, "d");
    assert_eq!(exit, 3);
    assert!(lines[0].contains("http://10.255.2.252/self/index.html#/Login"));
    assert_eq!(detect_report(Some("http://p")).1, 0);
    assert_eq!(detect_report(Some("http://p")).0[0], "发现门户: http://p");
    assert_eq!(detect_report(None).1, 2);
    assert_eq!(check_report(Some(true)), ("结论: 已联网(已认证)", 0));
    assert_eq!(check_report(Some(false)), ("结论: 未认证(被门户劫持)", 1));
    assert_eq!(check_report(None), ("结论: 无法判定(网络不通?)", 1));
}

#[test]
fn controls_ask_for_commands() {
    assert_eq!(handle_command(101, 1), Command::ShowAdapter);
    assert_eq!(handle_command(101, 7), Command::Nothing);
    let all: Vec<Command> = (102..=118).map(|id| handle_command(id, 0)).collect();
    assert_eq!(
        all,
        vec![
            Command::Refresh,
            Command::Nothing,
            Command::Nothing,
            Command::Nothing,
            Command::TogglePassword,
            Command::ToggleSave,
            Command::ChooseComputer,
            Command::ChoosePhone,
            Command::Test,
            Command::Login,
            Command::History,
            Command::ClearSaved,
            Command::SelfService,
            Command::Nothing,
            Command::Nothing,
            Command::Nothing,
            Command::DetectPortal,
        ]
    );
    assert_eq!((current_ua_kind(true), current_ua_kind(false)), ("mobile", "pc"));
    assert_eq!((dp(720, 96), dp(720, 144), dp(-720, 144), dp(-1, 97)), (720, 1080, -1080, -1));
    assert_eq!((log_to_cut(80_000), log_to_cut(80_001)), (None, Some(40_000)));
    assert_eq!((first_line_shown(200), first_line_shown(201)), (0, 1));
}

#[test]
fn window_collects_and_confirms() {
    let a = wlan();
    let p = collect_params(" u ", " p ", " http://p ", Some(&a), true, true).unwrap();
    assert_eq!((p.user.as_str(), p.pass.as_str(), p.ua_kind.as_str()), ("u", " p ", "mobile"));
    assert!(p.is_complete());
    assert_eq!(p.password_to_keep(), Some(" p "));
    assert_eq!(p.portal_to_keep(), Some("http://p"));
    assert_eq!(
        p.confirm_text(),
        "即将使用以下配置提交登录认证:\n\n账号: u\n网卡: WLAN (10.200.0.7)\n设备类型: 手机端(手机槽)\n保存账号密码: 是(DPAPI 加密)\n\n注意: 认证会占用对应设备槽位; 若槽位已被占用,\n程序只会提示手动下线, 不会自动顶号.\n\n确定继续?"
    );
    assert_eq!(p.opening_line(), "---- 一键认证: 账号=u 网卡=WLAN 设备=手机端(手机槽) 保存=是 ----");
    let q = collect_params(" ", "p", " ", Some(&a), false, false).unwrap();
    assert!(!q.is_complete());
    assert_eq!(q.password_to_keep(), None);
    assert_eq!(q.portal_to_keep(), None);
    assert!(q.confirm_text().contains("设备类型: 电脑端(PC 槽)\n保存账号密码: 否\n"));
    assert!(collect_params("u", "p", "", None, false, false).is_none());
}

#[test]
fn window_says_how_a_login_ended() {
    let f = login_feedback(true, LoginCode::Already, "");
    assert_eq!((f.status, f.text.as_str(), f.caption, f.sign), ("已在线", "本机已在线, 无需认证.", "联通正常", Sign::Information));
    let f = login_feedback(true, LoginCode::Success, "x");
    assert_eq!((f.status, f.sign), ("已上线", Sign::Information));
    let f = login_feedback(false, LoginCode::Conflict, "x");
    assert_eq!((f.status, f.sign), ("槽位冲突", Sign::Warning));
    assert!(f.text.contains("http://10.255.2.252/self/index.html#/Login"));
    let f = login_feedback(false, LoginCode::BadPassword, "x");
    assert_eq!((f.status, f.caption, f.sign), ("密码错误", "认证失败", Sign::Error));
    let f = login_feedback(false, LoginCode::NoPortal, "x");
    assert_eq!((f.status, f.text.as_str()), ("认证失败", "认证失败: x"));
    assert_eq!(verdict_line(Some(true)), "结论: 已联网(已认证), 无需登录");
    assert_eq!(verdict_line(Some(false)), "结论: 未认证(被门户劫持), 可执行一键认证");
    assert_eq!(verdict_line(None), "结论: 无法判定, 网卡可能未连接或网络异常");
    assert_eq!(restored_line("u", true), "已载入保存的账号: u(含加密保存的密码)");
    assert_eq!(restored_line("u", false), "已载入保存的账号: u");
    assert_eq!(history_text(&Vec::new()), "(暂无日志)");
    assert_eq!(history_text(&vec!["a".to_string(), "b".to_string()]), "a\r\nb");
}

#[test]
fn credentials_are_kept_on_success_alone() {
    let sealed = [97u8];
    let save = options(&["--save", "--ua", "mobile", "--adapter", "WLAN"]);
    let plain = options(&[]);
    assert!(save.keeps_credentials(true));
    assert!(!save.keeps_credentials(false) && !plain.keeps_credentials(true));
    let mut s = Store::load(None);
    s.data.username = "before".to_string();
    s.data.password_dpapi = "Yg==".to_string();
    for (o, ok) in [(&save, false), (&plain, true), (&plain, false)] {
        assert_eq!(o.keep_credentials(&mut s, ok, "u", "p", Some(&sealed)), None);
        assert_eq!((s.data.username.as_str(), s.data.password_dpapi.as_str()), ("before", "Yg=="));
        assert!(!s.dirty && !s.data.save_password);
    }
    let line = save.keep_credentials(&mut s, true, "u", "p", Some(&sealed));
    assert_eq!(line.as_deref(), Some("账号信息已加密保存(DPAPI)"));
    assert_eq!((s.data.username.as_str(), s.data.password_dpapi.as_str()), ("u", "YQ=="));
    assert_eq!((s.data.ua.as_str(), s.data.adapter.as_str()), ("mobile", "WLAN"));
    assert!(s.dirty && s.data.save_password);
    let line = save.keep_credentials(&mut s, true, "u", "p", None);
    assert_eq!(line.as_deref(), Some("!! 保存账号失败: CryptProtectData 失败"));
}

#[test]
fn own_adapter_is_named_or_guessed() {
    let mut lan = wlan();
    lan.name = "Ethernet".to_string();
    lan.ipv4 = vec![Ipv4 { a: 192, b: 168, c: 0, d: 2 }];
    let all = vec![lan, wlan()];
    assert_eq!(options(&[]).own_adapter(&all).map(|a| a.name.as_str()), Some("WLAN"));
    assert_eq!(options(&["--adapter", "ethernet"]).own_adapter(&all).map(|a| a.name.as_str()), Some("Ethernet"));
    assert!(options(&["--adapter", "x"]).own_adapter(&all).is_none());
    assert!(options(&[]).own_adapter(&[]).is_none());
}

#[test]
fn early_ends_have_a_status() {
    for end in [EarlyEnd::Helped, EarlyEnd::Forgotten, EarlyEnd::Listed] {
        assert_eq!(early_exit(end), 0);
    }
    for end in [EarlyEnd::Refused, EarlyEnd::NoSource, EarlyEnd::NoCredentials, EarlyEnd::NoCaptcha] {
        assert_eq!(early_exit(end), 1);
    }
}
