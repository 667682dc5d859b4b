use campus_auth::cli::adapter_line;
use campus_auth::gui::{adapter_label, info_text, select_adapter};
use campus_auth::ipv4::Ipv4;
use campus_auth::net::{
    find_adapter, guess_campus_adapter, list_adapters, resolve_adapter_ip, sockaddr_to_ipv4,
    Adapter, RawAdapter, RawAddress,
};

fn raw_ip(a: u8, b: u8, c: u8, d: u8) -> RawAddress {
    RawAddress { family: 2, data: [0, 0, a, b, c, d, 0, 0, 0, 0, 0, 0, 0, 0] }
}

fn raw(name: &str, addresses: Vec<RawAddress>) -> RawAdapter {
    RawAdapter {
        name: name.encode_utf16().collect(),
        desc: "Intel".encode_utf16().collect(),
        mac: vec![0xBC, 0x6E, 0x02],
        oper_status: 1,
        addresses,
    }
}

fn adapter(name: &str, ips: &[(u8, u8)]) -> Adapter {
    Adapter {
        name: name.to_string(),
        desc: "d".to_string(),
        mac: "AA-BB".to_string(),
        status: "Up".to_string(),
        ipv4: ips.iter().map(|(a, b)| Ipv4 { a: *a, b: *b, c: 0, d: 1 }).collect(),
    }
}

#[test]
fn only_usable_adapters_are_listed() {
    let list = list_adapters(&[
        raw("", vec![raw_ip(10, 200, 0, 1)]),
        raw("以太网", vec![raw_ip(169, 254, 1, 1), raw_ip(127, 0, 0, 1)]),
        raw("WLAN", vec![raw_ip(169, 254, 1, 1), raw_ip(10, 200, 3, 4), raw_ip(192, 168, 1, 1)]),
        raw("IPv6", vec![RawAddress { family: 23, data: [9; 14] }]),
    ]);
    assert_eq!(list.len(), 1);
    assert_eq!(list[0].name, "WLAN");
    assert_eq!(list[0].desc, "Intel");
    assert_eq!(list[0].mac, "BC-6E-02");
    assert_eq!(list[0].status, "Up");
    assert_eq!(
        list[0].ipv4,
        vec![Ipv4 { a: 10, b: 200, c: 3, d: 4 }, Ipv4 { a: 192, b: 168, c: 1, d: 1 }]
    );
    assert_eq!(sockaddr_to_ipv4(&RawAddress { family: 23, data: [9; 14] }), None);
}

#[test]
fn states_have_names() {
    let names: Vec<String> = (0..9)
        .map(|n| {
            let mut a = raw("a", vec![raw_ip(1, 2, 3, 4)]);
            a.oper_status = n;
            list_adapters(&[a])[0].status.clone()
        })
        .collect();
    assert_eq!(
        names,
        vec!["Unknown", "Up", "Down", "Testing", "Unknown", "Dormant", "NotPresent", "LowerLayerDown", "Unknown"]
    );
}

#[test]
fn campus_comes_first() {
    let list = vec![adapter("WLAN 2", &[(192, 168)]), adapter("以太网", &[(1, 2), (10, 202)]), adapter("x", &[(10, 200)])];
    assert!(!list[0].is_campus() && list[1].is_campus() && list[2].is_campus());
    assert!(!adapter("y", &[(10, 201), (11, 200)]).is_campus());
    assert_eq!(guess_campus_adapter(&list).map(|a| a.name.as_str()), Some("以太网"));
    assert_eq!(guess_campus_adapter(&list[..1]).map(|a| a.name.as_str()), Some("WLAN 2"));
    let other = vec![adapter("wired", &[(1, 2)]), adapter("我的无线网卡", &[(1, 2)])];
    assert_eq!(guess_campus_adapter(&other).map(|a| a.name.as_str()), Some("我的无线网卡"));
    assert!(guess_campus_adapter(&[adapter("WiFi", &[])]).is_none());
    assert!(guess_campus_adapter(&other[..1]).is_none());
}

#[test]
fn adapters_are_found_by_name() {
    let list = vec![adapter("WLAN", &[(10, 1), (10, 2)]), adapter("wlan", &[])];
    assert_eq!(resolve_adapter_ip(&list, "wLaN"), Some(Ipv4 { a: 10, b: 1, c: 0, d: 1 }));
    assert_eq!(resolve_adapter_ip(&list[1..], "wLaN"), None);
    assert_eq!(resolve_adapter_ip(&list, "x"), None);
    assert_eq!(find_adapter(&list, "WLAN").map(|a| a.ipv4.len()), Some(2));
}

#[test]
fn window_selects_an_adapter() {
    let list = vec![adapter("a", &[(1, 2)]), adapter("My Wlan", &[(1, 2)]), adapter("c", &[(10, 200)])];
    assert_eq!(select_adapter(&list, "a"), Some(0));
    assert_eq!(select_adapter(&list, "A"), Some(2));
    assert_eq!(select_adapter(&list[..2], ""), Some(1));
    assert_eq!(select_adapter(&list[..1], "z"), Some(0));
    assert_eq!(select_adapter(&[], "z"), None);
}

#[test]
fn adapters_as_text() {
    let a = adapter("WLAN", &[(10, 200), (1, 2)]);
    assert_eq!(adapter_label(&a), "WLAN  |  10.200.0.1, 1.2.0.1  |  AA-BB");
    assert_eq!(
        info_text(Some(&a)),
        "名称: WLAN    状态: Up    MAC: AA-BB\r\nIPv4: 10.200.0.1, 1.2.0.1    适配器: d\r\n提示: 该网卡在校园网段(10.200/10.202), 适合用于认证"
    );
    assert!(info_text(Some(&adapter("x", &[]))).ends_with("认证可能不适用"));
    assert_eq!(info_text(None), "未选择网卡");
    let wide = adapter("无线", &[(1, 2)]);
    assert_eq!(
        adapter_line(&wide),
        format!("{:<14} {:<18} {:<20} {:<8} {}", "无线", "1.2.0.1", "AA-BB", "Up", "d")
    );
    let long = adapter("a name that is long", &[(100, 200), (101, 201)]);
    assert_eq!(
        adapter_line(&long),
        format!("{:<14} {:<18} {:<20} {:<8} {}", "a name that is long", "100.200.0.1,101.201.0.1", "AA-BB", "Up", "d")
    );
}
