use campus_auth::page::{
    detect_credential_fields, extract_err_message, parse_form_fields, parse_form_inputs,
    split_attrs,
};

fn chars(s: &str) -> Vec<char> {
    s.chars().collect()
}

fn pair(k: &str, v: &str) -> (String, String) {
    (k.to_string(), v.to_string())
}

const LOGIN_PAGE: &str = r#"<html><form>
<INPUT type="hidden" name="serverIp" value="tomcat_server:80">
<input type='hidden' name='hostIp' value='http://127.0.0.1:8082/?a&amp;b'/>
<input name=templatetype value=1 >
<input type="hidden" name="off" value="x" disabled>
<input type="text" id="x" name="account" value="">
<input type="password" name="pwd">
<input type="submit" name="go" value="Go">
</form></html>"#;

#[test]
fn attributes_are_split() {
    assert_eq!(
        split_attrs(&chars(" type=\"a b\" NAME='c' checked value=d ")),
        vec![pair("type", "a b"), pair("name", "c"), pair("checked", ""), pair("value", "d")]
    );
    assert_eq!(split_attrs(&chars("")), Vec::new());
}

#[test]
fn fields_keep_order_and_case() {
    let fields = parse_form_fields(LOGIN_PAGE);
    let keys: Vec<&str> = fields.iter().map(|(k, _)| k.as_str()).collect();
    assert_eq!(fields[0], pair("serverIp", "tomcat_server:80"));
    assert_eq!(fields[1], pair("hostIp", "http://127.0.0.1:8082/?a&b"));
    assert_eq!(fields[2], pair("templatetype", "1"));
    assert!(!keys.contains(&"off"));
    assert!(keys.contains(&"pwd"));
}

#[test]
fn credential_fields_are_found() {
    let inputs = parse_form_inputs(LOGIN_PAGE);
    assert!(inputs.iter().any(|(n, t, _)| n == "pwd" && t == "password"));
    let (user, pass) = detect_credential_fields(&inputs);
    assert_eq!(user.as_deref(), Some("account"));
    assert_eq!(pass.as_deref(), Some("pwd"));
    let (user, pass) = detect_credential_fields(&[]);
    assert_eq!((user, pass), (None, None));
}

#[test]
fn messages_are_extracted() {
    assert_eq!(
        extract_err_message(r#"<input type="hidden" id="errMessage" value="密码错误">"#),
        "密码错误"
    );
    assert_eq!(extract_err_message("<html></html>"), "");
    assert_eq!(extract_err_message(""), "");
}

#[test]
fn odd_inputs() {
    // Without a password the account is found by its name.
    let inputs = parse_form_inputs("<input name=a type=hidden><input name=b><input name=LoginX>");
    assert_eq!(detect_credential_fields(&inputs), (Some("LoginX".to_string()), None));
    // The nearest visible input before the password.
    let inputs = parse_form_inputs("<input name=one><input name=two><input name=h type=HIDDEN><input type=password name=p><input name=user>");
    assert_eq!(detect_credential_fields(&inputs), (Some("two".to_string()), Some("p".to_string())));
    // Without one before it, by its name.
    let inputs = parse_form_inputs("<input type=password name=p><input name=userid>");
    assert_eq!(detect_credential_fields(&inputs), (Some("userid".to_string()), Some("p".to_string())));
    // A password input is visible text too.
    let inputs = parse_form_inputs("<input type=password name=passid>");
    assert_eq!(detect_credential_fields(&inputs), (Some("passid".to_string()), Some("passid".to_string())));
    assert_eq!(parse_form_inputs("<input name=''><input value=1><input name=x disabled><input name"), Vec::new());
    assert_eq!(parse_form_fields("<input name=''>"), vec![pair("", "")]);
    assert_eq!(parse_form_fields("<input name=a value=1 name=b>"), vec![pair("b", "1")]);
    assert_eq!(
        parse_form_fields("<input name=a value='&quot;&#39;&amp;quot;'>"),
        vec![pair("a", "\"'\"")]
    );
}

#[test]
fn odd_messages() {
    assert_eq!(extract_err_message("<INPUT ID='errMessage' VALUE='a&amp;b&quot;c'>"), "a&b\"c");
    assert_eq!(extract_err_message("<input id=\"errMessage\" value=x>"), "");
    assert_eq!(extract_err_message("<input id=\"errMessage\">"), "");
    assert_eq!(extract_err_message("<input id=x value='y'><input id='errmessage' value='z'>"), "z");
    assert_eq!(extract_err_message("<input id='errMessage' value=''><input id='errMessage' value='z'>"), "");
    assert_eq!(extract_err_message("<input id='errMessage' value='z'"), "");
}

#[test]
fn self_closing_inputs_may_be_disabled() {
    assert_eq!(parse_form_fields(r#"<input name="a" value="1" disabled/>"#), Vec::new());
    assert_eq!(parse_form_fields(r#"<input name="a" value="1" disabled />"#), Vec::new());
    assert_eq!(parse_form_fields(r#"<input disabled/name="a" value="1">"#), Vec::new());
    assert_eq!(parse_form_fields(r#"<input name="a" DISABLED=""/>"#), Vec::new());
    assert_eq!(parse_form_inputs(r#"<input name="a" type="text" Disabled/>"#), Vec::new());
    assert_eq!(parse_form_fields(r#"<input name="a" value="disabled/"/>"#), vec![pair("a", "disabled/")]);
    assert_eq!(parse_form_fields("<input name=a value=1/>"), vec![pair("a", "1/")]);
}

#[test]
fn attributes_come_back() {
    let written = vec![pair("<input", ""), pair("name", "A b"), pair("value", "c/d=e"), pair("checked", "")];
    assert_eq!(split_attrs(&chars("<input Name=\"A b\" value=\"c/d=e\" CHECKED")), written);
    assert_eq!(split_attrs(&chars("<input Name=\"A b\" value=\"c/d=e\" CHECKED/")), written);
    assert_eq!(split_attrs(&chars("<input Name=\"A b\" value=\"c/d=e\"/")), written[..3].to_vec());
}

#[test]
fn parts_submit_one_after_the_other() {
    let (a, b) = ("<form><input name=x value=1>", "<input name=y><input value=2 name=''>");
    let whole = format!("{a}{b}");
    let fields = parse_form_fields(&whole);
    assert_eq!(fields, vec![pair("x", "1"), pair("y", ""), pair("", "2")]);
    assert_eq!(fields, [parse_form_fields(a), parse_form_fields(b)].concat());
    assert_eq!(parse_form_inputs(&whole), [parse_form_inputs(a), parse_form_inputs(b)].concat());
    let named: Vec<(String, String)> = fields.into_iter().filter(|(n, _)| !n.is_empty()).collect();
    let inputs: Vec<(String, String)> = parse_form_inputs(&whole).into_iter().map(|(n, _, v)| (n, v)).collect();
    assert_eq!(inputs, named);
}

#[test]
fn slashes_close_a_tag_alone() {
    assert_eq!(split_attrs(&chars("a/name=x")), vec![pair("a/name", "x")]);
    assert_eq!(split_attrs(&chars("a/ b/c //")), vec![pair("a/", ""), pair("b/c", "")]);
    assert_eq!(split_attrs(&chars("a=/ / ")), vec![pair("a", "/")]);
    assert_eq!(parse_form_fields(r#"<input name="y" a/name="x">"#), vec![pair("y", "")]);
    assert_eq!(parse_form_fields("<input name=y disabled/x>"), vec![pair("y", "")]);
    assert_eq!(parse_form_fields("<input name=y disabled // >"), Vec::new());
}
