use campus_auth::form::{form_body, form_summary, login_form};

fn pair(k: &str, v: &str) -> (String, String) {
    (k.to_string(), v.to_string())
}

#[test]
fn bare_page_gets_the_defaults() {
    let form = login_form(Vec::new(), false, "userId", "passwd", "u", "p&q");
    assert_eq!(
        form_body(&form),
        "scheme=http&serverIp=tomcat_server%3A80&hostIp=http%3A%2F%2F127.0.0.1%3A8081%2F&auth_type=0&isBindMac1=0&pageid=-1&templatetype=1&listbindmac=0&recordmac=0&userId=u&passwd=p%26q"
    );
}

#[test]
fn page_keeps_its_order_and_names() {
    let fields = vec![
        pair("HOSTIP", "http://127.0.0.1:8082/"),
        pair("TemplateType", "1"),
        pair("pwd", ""),
        pair("account", "old"),
        pair("pwd", "second"),
    ];
    let form = login_form(fields, true, "account", "pwd", "u", "p");
    assert_eq!(form[0], pair("HOSTIP", "http://127.0.0.1:8082/"));
    assert_eq!(form[1], pair("TemplateType", "2"));
    assert_eq!(form[2], pair("pwd", "p"));
    assert_eq!(form[3], pair("account", "u"));
    assert_eq!(form[4], pair("pwd", "second"));
    assert_eq!(form[5], pair("scheme", "http"));
    assert!(!form.iter().any(|(k, _)| k == "hostIp" || k == "templatetype" || k == "userId"));
    assert_eq!(form.len(), 5 + 7);
}

#[test]
fn names_are_matched_exactly_for_credentials() {
    let form = login_form(vec![pair("USERID", "x")], false, "userId", "passwd", "u", "p");
    assert_eq!(form[0], pair("USERID", "x"));
    assert!(form.contains(&pair("userId", "u")) && form.contains(&pair("passwd", "p")));
}

#[test]
fn one_field_for_both() {
    let form = login_form(Vec::new(), false, "x", "x", "u", "p");
    assert_eq!(form.iter().filter(|(k, _)| k == "x").count(), 1);
    assert!(form.contains(&pair("x", "p")));
}

#[test]
fn summary_hides_the_password() {
    let a = form_summary(&login_form(vec![pair("PASSWD", "old")], false, "n", "secret", "u", "first"), "secret");
    let b = form_summary(&login_form(vec![pair("PASSWD", "old")], false, "n", "secret", "u", "other"), "secret");
    assert_eq!(a, b);
    assert!(a.starts_with("PASSWD=***, scheme=http, "));
    assert!(a.ends_with(", n=u, secret=***"));
}
