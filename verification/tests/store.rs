use campus_auth::clock::LocalTime;
use campus_auth::crypto::plain_bytes;
use campus_auth::store::{
    default_ua, is_to_be_sealed, FileFields, Store, StoreData, DAT_FILE, MAX_LOG_LINES,
};

const NOON: LocalTime = LocalTime { year: 2026, month: 9, day: 16, hour: 12, minute: 0, second: 0 };

#[test]
fn fresh_store() {
    let mut s = Store::load(None);
    assert_eq!(s.data.ua, "pc");
    assert_eq!(s.data.username, "");
    assert!(!s.data.save_password && s.data.log_lines.is_empty() && s.data.portal_url.is_empty());
    assert!(s.save_if_dirty().is_none());
    assert_eq!(DAT_FILE, "campus-auth.dat");
    assert_eq!(default_ua(), StoreData::default().ua);
    s.remember_portal("http://p");
    assert_eq!(s.save_if_dirty().map(|d| d.portal_url.clone()).as_deref(), Some("http://p"));
    assert!(!s.dirty);
    assert_eq!(s.save().portal_url, "http://p");
}

#[test]
fn lines_expire_by_their_stamp() {
    let mut s = Store::load(None);
    s.data.log_lines = vec![
        "[2026-09-08 23:59:59] old".to_string(),
        "[2026-09-09 00:00:00] kept".to_string(),
        "short".to_string(),
        "a line that has no stamp at all".to_string(),
        "早上好早上好早上好".to_string(),
    ];
    s.append_log_since("new", &NOON, "2026-09-09 00:00:00");
    assert_eq!(
        s.data.log_lines,
        vec![
            "[2026-09-09 00:00:00] kept",
            "short",
            "早上好早上好早上好",
            "[2026-09-16 12:00:00] new",
        ]
    );
    assert!(s.dirty);
}

#[test]
fn log_keeps_its_room() {
    let mut s = Store::load(None);
    s.data.log_lines = (0..MAX_LOG_LINES + 5).map(|i| format!("{i}")).collect();
    s.append_log_since("last", &NOON, "");
    assert_eq!(s.data.log_lines.len(), MAX_LOG_LINES);
    assert_eq!(s.data.log_lines[0], "6");
    assert_eq!(s.data.log_lines.last().map(String::as_str), Some("[2026-09-16 12:00:00] last"));
    s.clear_logs();
    assert!(s.data.log_lines.is_empty() && s.dirty);
}

#[test]
fn log_keeps_seven_days() {
    let mut s = Store::load(None);
    s.data.log_lines = vec!["[1999-12-31 23:59:59] old".to_string()];
    let future = LocalTime { year: 9999, month: 12, day: 31, hour: 23, minute: 59, second: 59 };
    s.append_log("new", &future, 8 * 3600);
    assert_eq!(s.data.log_lines, vec!["[9999-12-31 23:59:59] new".to_string()]);
}

#[test]
fn credentials_are_kept_sealed() {
    let mut s = Store::load(None);
    let plain = plain_bytes("秘密");
    assert_eq!(s.set_credentials("u", Some("秘密"), Some(&plain), true, "mobile", "WLAN"), Ok(()));
    assert_eq!((s.data.username.as_str(), s.data.ua.as_str(), s.data.adapter.as_str()), ("u", "mobile", "WLAN"));
    assert!(s.data.save_password && s.dirty);
    assert!(!s.data.password_dpapi.contains("秘密"));
    assert_eq!(s.sealed_password(), Some(plain.clone()));
    assert_eq!(s.get_password(Some(&plain)).as_deref(), Some("秘密"));
    assert_eq!(s.get_password(None), None);
    s.clear_credentials();
    assert_eq!((s.data.username.as_str(), s.data.password_dpapi.as_str(), s.data.save_password), ("", "", false));
    assert_eq!(s.data.ua, "mobile");
    assert_eq!(s.get_password(Some(&plain)), None);
}

#[test]
fn sealing_may_fail() {
    let mut s = Store::load(None);
    s.data.password_dpapi = "YQ==".to_string();
    assert_eq!(
        s.set_credentials("u", Some("p"), None, true, "pc", "A"),
        Err("CryptProtectData 失败".to_string())
    );
    assert_eq!(s.data.username, "u");
    assert_eq!(s.data.password_dpapi, "YQ==");
    assert!(!s.dirty);
    assert_eq!(s.set_credentials("u", Some(""), None, true, "pc", "A"), Ok(()));
    assert_eq!(s.data.password_dpapi, "");
    s.data.password_dpapi = "*".to_string();
    assert_eq!(s.sealed_password(), None);
    assert_eq!(s.get_password(Some(&[97, 0])), None);
    assert_eq!(s.set_credentials("u", Some("p"), None, false, "mobile", "B"), Ok(()));
    assert_eq!((s.data.username.as_str(), s.data.ua.as_str(), s.data.adapter.as_str()), ("", "pc", "A"));
}

#[test]
fn lines_expire_once() {
    let mut s = Store::load(None);
    s.data.log_lines = vec!["[2026-09-08 23:59:59] old".to_string(), "[2026-09-10 00:00:00] kept".to_string()];
    s.append_log_since("new", &NOON, "2026-09-09 00:00:00");
    let after = s.data.log_lines.clone();
    s.append_log_since("newer", &NOON, "2026-09-09 00:00:00");
    assert_eq!(s.data.log_lines[..2], after[..]);
    assert_eq!(s.data.log_lines.len(), 3);
}

#[test]
fn written_data_is_read_again() {
    let mut s = Store::load(None);
    let sealed = [1u8, 2, 3];
    assert_eq!(s.set_credentials("u", Some("p"), Some(&sealed), true, "mobile", "WLAN"), Ok(()));
    s.remember_portal("http://p");
    s.append_log_since("m", &NOON, "");
    let again = Store::load(Some(s.save().fields()));
    assert!(!again.dirty);
    assert_eq!(again.data.username, "u");
    assert_eq!(again.data.password_dpapi, "AQID");
    assert!(again.data.save_password);
    assert_eq!((again.data.ua.as_str(), again.data.adapter.as_str()), ("mobile", "WLAN"));
    assert_eq!(again.data.portal_url, "http://p");
    assert_eq!(again.data.log_lines, s.data.log_lines);
}

#[test]
fn absent_fields_are_fresh() {
    let read = FileFields {
        username: Some("u".to_string()),
        password_dpapi: None,
        save_password: None,
        ua: None,
        adapter: Some("A".to_string()),
        portal_url: None,
        log_lines: None,
    };
    let s = Store::load(Some(read));
    assert_eq!((s.data.username.as_str(), s.data.adapter.as_str(), s.data.ua.as_str()), ("u", "A", "pc"));
    assert!(s.data.password_dpapi.is_empty() && s.data.portal_url.is_empty() && s.data.log_lines.is_empty());
    assert!(!s.data.save_password);
}

#[test]
fn kept_password_comes_back() {
    let mut s = Store::load(None);
    let sealed: Vec<u8> = plain_bytes("p密").iter().map(|b| b ^ 0x5a).collect();
    assert_eq!(s.set_credentials("u", Some("p密"), Some(&sealed), true, "pc", ""), Ok(()));
    let opened: Vec<u8> = s.sealed_password().unwrap().iter().map(|b| b ^ 0x5a).collect();
    assert_eq!(s.get_password(Some(&opened)).as_deref(), Some("p密"));
    assert_eq!(s.password_to_use(Some(&opened)).as_deref(), Some("p密"));
    s.data.save_password = false;
    assert_eq!(s.password_to_use(Some(&opened)), None);
    assert_eq!(s.get_password(Some(&opened)).as_deref(), Some("p密"));
    assert_eq!(s.set_credentials("u", None, None, true, "pc", ""), Ok(()));
    assert_eq!(s.get_password(Some(&opened)), None);
}

#[test]
fn expired_lines_are_dropped_once() {
    let mut s = Store::load(None);
    s.data.username = "u".to_string();
    s.data.log_lines = vec![
        "[2026-09-08 23:59:59] old".to_string(),
        "[2026-09-09 00:00:00] kept".to_string(),
        "short".to_string(),
    ];
    for _ in 0..2 {
        s.drop_expired_logs("2026-09-09 00:00:00");
        assert_eq!(s.data.log_lines, vec!["[2026-09-09 00:00:00] kept", "short"]);
        assert!(s.data.username == "u" && !s.dirty);
    }
}

#[test]
fn passwords_to_be_sealed() {
    assert!(is_to_be_sealed(Some("p"), true));
    assert!(!is_to_be_sealed(Some("p"), false));
    assert!(!is_to_be_sealed(Some(""), true) && !is_to_be_sealed(None, true));
}
