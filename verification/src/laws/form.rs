//! What a login submits.
use vstd::prelude::*;
use crate::auth::AuthView;
use crate::common::{is_unreserved, percent_byte, percent_bytes, percent_encoded, upper_hex_digit};
use crate::form::{
    default_fields, field_text, form_body_of, form_summary_of, law_form_carries_the_credentials,
    law_form_names_the_device, lemma_defaults_follow, lemma_field_is_put, login_form_of, named,
    named_like, shown_field, template_of, with_defaults, with_field, with_first, FieldView,
};
use crate::laws::text::law_joined_one_by_one;
use crate::login::{page_form, pass_field_of, user_field_of};
use crate::page::{account_field, form_fields, form_inputs, password_field};
use crate::text::{digit_value, digits_value, first_where, lemma_first_where, lower};

verus! {

// ---------------------------------------------------------------------------
// The fields
// ---------------------------------------------------------------------------

/// The name and the value of a field that a form has in any case.
pub open spec fn is_default(name: Seq<char>, value: Seq<char>) -> bool {
    ||| name == "scheme"@ && value == "http"@
    ||| name == "serverIp"@ && value == "tomcat_server:80"@
    ||| name == "hostIp"@ && value == "http://127.0.0.1:8081/"@
    ||| name == "auth_type"@ && value == "0"@
    ||| name == "isBindMac1"@ && value == "0"@
    ||| name == "pageid"@ && value == "-1"@
    ||| name == "listbindmac"@ && value == "0"@
    ||| name == "recordmac"@ && value == "0"@
}

/// The place of a default field.
proof fn lemma_default_place(name: Seq<char>, value: Seq<char>) -> (j: int)
    requires
        is_default(name, value),
    ensures
        0 <= j < 9,
        j != 6,
        default_fields()[j] == (name, value),
{
    if name == "scheme"@ && value == "http"@ {
        0
    } else if name == "serverIp"@ && value == "tomcat_server:80"@ {
        1
    } else if name == "hostIp"@ && value == "http://127.0.0.1:8081/"@ {
        2
    } else if name == "auth_type"@ && value == "0"@ {
        3
    } else if name == "isBindMac1"@ && value == "0"@ {
        4
    } else if name == "pageid"@ && value == "-1"@ {
        5
    } else if name == "listbindmac"@ && value == "0"@ {
        7
    } else {
        8
    }
}

/// The default fields have different names, the case of letters aside.
proof fn lemma_defaults_differ(i: int, j: int)
    requires
        0 <= i < 9,
        0 <= j < 9,
        i != j,
    ensures
        lower(default_fields()[i].0) != lower(default_fields()[j].0),
{
    reveal_strlit("scheme");
    reveal_strlit("serverIp");
    reveal_strlit("hostIp");
    reveal_strlit("auth_type");
    reveal_strlit("isBindMac1");
    reveal_strlit("pageid");
    reveal_strlit("templatetype");
    reveal_strlit("listbindmac");
    reveal_strlit("recordmac");
    let (x, y) = (default_fields()[i].0, default_fields()[j].0);
    assert(lower(x).len() == x.len());
    assert(lower(y).len() == y.len());
    assert(lower(x)[0] == x[0]);
    assert(lower(y)[0] == y[0]);
    assert(i == 0 || i == 1 || i == 2 || i == 3 || i == 4 || i == 5 || i == 6 || i == 7 || i == 8);
    assert(j == 0 || j == 1 || j == 2 || j == 3 || j == 4 || j == 5 || j == 6 || j == 7 || j == 8);
}

/// A page without a field has none before its default is added.
proof fn lemma_not_yet_added(fields: Seq<FieldView>, n: int, j: int)
    requires
        0 <= n <= j < 9,
        forall|i: int|
            0 <= i < fields.len() ==> lower((#[trigger] fields[i]).0) != lower(
                default_fields()[j].0,
            ),
    ensures
        forall|i: int|
            0 <= i < with_defaults(fields, n).len() ==> lower(
                (#[trigger] with_defaults(fields, n)[i]).0,
            ) != lower(default_fields()[j].0),
    decreases n,
{
    if n > 0 {
        lemma_not_yet_added(fields, n - 1, j);
        lemma_defaults_differ(n - 1, j);
        let (before, all) = (with_defaults(fields, n - 1), with_defaults(fields, n));
        assert forall|i: int| 0 <= i < all.len() implies lower((#[trigger] all[i]).0) != lower(
            default_fields()[j].0,
        ) by {
            if i < before.len() {
                assert(all[i] == before[i]);
            } else {
                assert(all[i] == default_fields()[n - 1]);
            }
        }
    }
}

/// A default that the page lacks is added, and stays.
proof fn lemma_default_is_added(fields: Seq<FieldView>, n: int, j: int) -> (k: int)
    requires
        0 <= j < n <= 9,
        forall|i: int|
            0 <= i < fields.len() ==> lower((#[trigger] fields[i]).0) != lower(
                default_fields()[j].0,
            ),
    ensures
        fields.len() <= k < with_defaults(fields, n).len(),
        with_defaults(fields, n)[k] == default_fields()[j],
    decreases n,
{
    let before = with_defaults(fields, n - 1);
    if j < n - 1 {
        let k = lemma_default_is_added(fields, n - 1, j);
        assert(before.push(default_fields()[n - 1])[k] == before[k]);
        k
    } else {
        lemma_not_yet_added(fields, j, j);
        lemma_defaults_follow(fields, j);
        let p = named_like(default_fields()[j].0);
        lemma_first_where(before, p, 0);
        if let Some(i) = first_where(before, p, 0) {
            assert(p(before[i]));
        }
        before.len() as int
    }
}

/// A form holds each default field that the page lacks, with its value, where the
/// credentials do not go into it.
pub proof fn law_missing_field_has_its_default(
    fields: Seq<FieldView>,
    mobile: bool,
    user_field: Seq<char>,
    pass_field: Seq<char>,
    username: Seq<char>,
    password: Seq<char>,
    name: Seq<char>,
    value: Seq<char>,
)
    requires
        is_default(name, value),
        user_field != name,
        pass_field != name,
        forall|i: int| 0 <= i < fields.len() ==> lower((#[trigger] fields[i]).0) != lower(name),
    ensures
        login_form_of(fields, mobile, user_field, pass_field, username, password).contains(
            (name, value),
        ),
{
    let j = lemma_default_place(name, value);
    let k = lemma_default_is_added(fields, 9, j);
    let full = with_defaults(fields, 9);
    let like = named_like("templatetype"@);
    lemma_first_where(full, like, 0);
    assert(default_fields()[6].0 == "templatetype"@);
    lemma_defaults_differ(j, 6);
    let set = with_first(full, like, template_of(mobile));
    assert(!like(full[k]));
    assert(set[k] == full[k]);
    let half = with_field(set, user_field, username);
    let form = with_field(half, pass_field, password);
    lemma_field_is_put(set, user_field, username);
    lemma_field_is_put(half, pass_field, password);
    assert(half[k] == set[k]);
    assert(form[k] == half[k]);
}

/// The template that a form names is 2 for a phone and 1 for a computer.
pub proof fn law_template_is_that_of_the_device(
    fields: Seq<FieldView>,
    mobile: bool,
    user_field: Seq<char>,
    pass_field: Seq<char>,
    username: Seq<char>,
    password: Seq<char>,
) -> (i: int)
    requires
        lower(user_field) != "templatetype"@,
        lower(pass_field) != "templatetype"@,
    ensures
        ({
            let form = login_form_of(fields, mobile, user_field, pass_field, username, password);
            &&& 0 <= i < form.len()
            &&& lower(form[i].0) == "templatetype"@
            &&& form[i].1 == (if mobile {
                "2"@
            } else {
                "1"@
            })
            &&& forall|j: int| 0 <= j < i ==> lower((#[trigger] form[j]).0) != "templatetype"@
        }),
{
    reveal_strlit("templatetype");
    assert(lower("templatetype"@) =~= "templatetype"@);
    law_form_names_the_device(fields, mobile, user_field, pass_field, username, password);
    let form = login_form_of(fields, mobile, user_field, pass_field, username, password);
    let like = named_like("templatetype"@);
    lemma_first_where(form, like, 0);
    let i = first_where(form, like, 0)->0;
    assert(like(form[i]));
    assert forall|j: int| 0 <= j < i implies lower((#[trigger] form[j]).0) != "templatetype"@ by {
        assert(!like(form[j]));
    }
    i
}

/// The form of a page carries the account and the password as they are, in the fields that
/// the page has for them, or else in `userId` and `passwd`.
pub proof fn law_page_form_carries_the_credentials(
    a: AuthView,
    html: Seq<char>,
    username: Seq<char>,
    password: Seq<char>,
)
    ensures
        ({
            let form = page_form(a, html, username, password);
            let user = match account_field(form_inputs(html)) {
                Some(n) => n,
                None => "userId"@,
            };
            let pass = match password_field(form_inputs(html)) {
                Some(n) => n,
                None => "passwd"@,
            };
            &&& form.contains((pass, password))
            &&& user != pass ==> form.contains((user, username))
            &&& form == login_form_of(
                form_fields(html),
                a.is_mobile,
                user,
                pass,
                username,
                password,
            )
        }),
{
    let (user, pass) = (user_field_of(html), pass_field_of(html));
    let fields = form_fields(html);
    law_form_carries_the_credentials(fields, a.is_mobile, user, pass, username, password);
    let form = page_form(a, html, username, password);
    lemma_first_where(form, named(pass), 0);
    lemma_first_where(form, named(user), 0);
    let i = first_where(form, named(pass), 0)->0;
    assert(form[i] == (pass, password));
    if user != pass {
        let k = first_where(form, named(user), 0)->0;
        assert(form[k] == (user, username));
    }
}

// ---------------------------------------------------------------------------
// As it is sent, and as a log shows it
// ---------------------------------------------------------------------------

/// A byte stays as it is where it is a letter, a digit, or one of four signs; otherwise it
/// becomes a percent sign and two digits in capitals.
pub proof fn law_byte_is_encoded(b: u8)
    ensures
        (65 <= b <= 90) || (97 <= b <= 122) || (48 <= b <= 57) || b == 45 || b == 46 || b == 95 || b
            == 126 ==> percent_bytes(seq![b]) == seq![b as char],
        !((65 <= b <= 90) || (97 <= b <= 122) || (48 <= b <= 57) || b == 45 || b == 46 || b == 95
            || b == 126) ==> ({
            let s = percent_bytes(seq![b]);
            &&& s.len() == 3
            &&& s[0] == '%'
            &&& digits_value(s.skip(1), 16) == Some(b as int)
            &&& !('a' <= s[1] && s[1] <= 'z') && !('a' <= s[2] && s[2] <= 'z')
        }),
{
    assert(seq![b].drop_last() == Seq::<u8>::empty());
    assert(percent_bytes(seq![b].drop_last()) == Seq::<char>::empty());
    assert(percent_bytes(seq![b]) =~= percent_byte(b));
    if !is_unreserved(b) {
        let (h, l) = (b as int / 16, b as int % 16);
        let s = percent_byte(b).skip(1);
        assert(s =~= seq![upper_hex_digit(h), upper_hex_digit(l)]);
        assert(s.drop_last() =~= seq![upper_hex_digit(h)]);
        assert(s.drop_last().drop_last() =~= Seq::<char>::empty());
        assert(digits_value(s.drop_last().drop_last(), 16) == Some(0int));
        assert(digit_value(upper_hex_digit(h), 16) == Some(h));
        assert(digit_value(upper_hex_digit(l), 16) == Some(l));
        assert(digits_value(s.drop_last(), 16) == Some(h));
    }
}

/// A log shows the fields of a form with their values, but for the one with the password
/// and any named `passwd` in letters of either case, of which it shows that there is one.
pub proof fn law_log_shows_the_form(
    form: Seq<FieldView>,
    name: Seq<char>,
    value: Seq<char>,
    pass_field: Seq<char>,
)
    ensures
        name != pass_field && lower(name) != "passwd"@ ==> form_summary_of(
            seq![(name, value)],
            pass_field,
        ) == name + "="@ + value,
        name == pass_field || lower(name) == "passwd"@ ==> form_summary_of(
            seq![(name, value)],
            pass_field,
        ) == name + "=***"@,
        form.len() > 0 ==> form_summary_of(seq![(name, value)] + form, pass_field)
            == form_summary_of(seq![(name, value)], pass_field) + ", "@ + form_summary_of(
            form,
            pass_field,
        ),
{
    reveal_strlit("passwd");
    assert(lower("passwd"@) =~= "passwd"@);
    let show = |f: FieldView| shown_field(f, pass_field);
    let one = seq![(name, value)];
    assert(one.map_values(show) == seq![show((name, value))]);
    assert((one + form).map_values(show) == one.map_values(show) + form.map_values(show));
    assert((one.map_values(show) + form.map_values(show)).skip(1) == form.map_values(show));
}

/// A form is written field by field: the name and the value, both encoded, with an equals
/// sign between them, and an ampersand between fields.
pub proof fn law_form_is_written(name: Seq<char>, value: Seq<char>, rest: Seq<FieldView>)
    ensures
        form_body_of(seq![(name, value)]) == percent_encoded(name) + "="@ + percent_encoded(value),
        rest.len() > 0 ==> form_body_of(seq![(name, value)] + rest) == percent_encoded(name) + "="@
            + percent_encoded(value) + "&"@ + form_body_of(rest),
        form_body_of(Seq::empty()) == Seq::<char>::empty(),
{
    let write = |f: FieldView| field_text(f);
    let text = percent_encoded(name) + "="@ + percent_encoded(value);
    assert(seq![(name, value)].map_values(write) =~= seq![text]);
    assert((seq![(name, value)] + rest).map_values(write) =~= seq![text] + rest.map_values(write));
    assert(Seq::<FieldView>::empty().map_values(write) =~= Seq::<Seq<char>>::empty());
    law_joined_one_by_one(text, rest.map_values(write), "&"@);
}

/// A page that names no field for the account or for the password has the usual ones.
pub proof fn law_fields_have_usual_names(html: Seq<char>)
    ensures
        account_field(form_inputs(html)) is None ==> user_field_of(html) == "userId"@,
        password_field(form_inputs(html)) is None ==> pass_field_of(html) == "passwd"@,
        account_field(form_inputs(html)) matches Some(name) ==> user_field_of(html) == name,
        password_field(form_inputs(html)) matches Some(name) ==> pass_field_of(html) == name,
{
}

} // verus!
