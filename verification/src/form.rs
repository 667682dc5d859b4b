//! The form that a login submits: the page's own fields, in the page's order and under the
//! page's names, filled up with defaults and with the credentials.
use vstd::prelude::*;
use vstd::utf8::encode_utf8;
use crate::common::{
    law_percent_encoding_comes_back, law_percent_encoding_is_plain, percent_decoded,
    percent_encoded, urlencode, BASE_FORM_DEFAULTS,
};
use crate::text::{
    at_char, find_from, first_stop, first_where, join2, join3, join_texts, joined, lemma_find_from,
    lemma_first_stop, lemma_first_where, occurs_at, pair_view, pairs, same_ignoring_case,
    same_ignoring_case_spec, same_text, split_on, texts,
};

verus! {

/// A field of a form: its name and its value.
pub type FieldView = (Seq<char>, Seq<char>);

/// Fields with a name.
pub open spec fn named(key: Seq<char>) -> spec_fn(FieldView) -> bool {
    |f: FieldView| f.0 == key
}

/// Fields with a name, the case of letters aside.
pub open spec fn named_like(key: Seq<char>) -> spec_fn(FieldView) -> bool {
    |f: FieldView| same_ignoring_case_spec(f.0, key)
}

/// The fields that a form holds where the page names none.
pub open spec fn default_fields() -> Seq<FieldView> {
    BASE_FORM_DEFAULTS@.map_values(|p: (&'static str, &'static str)| (p.0@, p.1@))
}

/// A form with a field added, unless it has one with that name, the case of letters aside.
pub open spec fn with_default(form: Seq<FieldView>, field: FieldView) -> Seq<FieldView> {
    if first_where(form, named_like(field.0), 0) is Some {
        form
    } else {
        form.push(field)
    }
}

/// A form with the first `n` default fields.
pub open spec fn with_defaults(form: Seq<FieldView>, n: int) -> Seq<FieldView>
    decreases n,
{
    if n <= 0 {
        form
    } else {
        with_default(with_defaults(form, n - 1), default_fields()[n - 1])
    }
}

/// A form in which the first field that satisfies `p`, if there is one, has a new value.
pub open spec fn with_first(
    form: Seq<FieldView>,
    p: spec_fn(FieldView) -> bool,
    value: Seq<char>,
) -> Seq<FieldView> {
    match first_where(form, p, 0) {
        Some(i) => form.update(i, (form[i].0, value)),
        None => form,
    }
}

/// A form in which the first field with a name has a value; the field is added where there
/// is none.
pub open spec fn with_field(form: Seq<FieldView>, key: Seq<char>, value: Seq<char>) -> Seq<
    FieldView,
> {
    match first_where(form, named(key), 0) {
        Some(i) => form.update(i, (form[i].0, value)),
        None => form.push((key, value)),
    }
}

/// The template number of a kind of device: 2 for a phone, 1 for a computer.
pub open spec fn template_of(mobile: bool) -> Seq<char> {
    if mobile {
        "2"@
    } else {
        "1"@
    }
}

/// The form that a login submits.
pub open spec fn login_form_of(
    fields: Seq<FieldView>,
    mobile: bool,
    user_field: Seq<char>,
    pass_field: Seq<char>,
    username: Seq<char>,
    password: Seq<char>,
) -> Seq<FieldView> {
    with_field(
        with_field(
            with_first(with_defaults(fields, 9), named_like("templatetype"@), template_of(mobile)),
            user_field,
            username,
        ),
        pass_field,
        password,
    )
}

/// A field as it is submitted.
pub open spec fn field_text(f: FieldView) -> Seq<char> {
    percent_encoded(f.0) + "="@ + percent_encoded(f.1)
}

/// A form as it is submitted.
pub open spec fn form_body_of(form: Seq<FieldView>) -> Seq<char> {
    joined(form.map_values(|f: FieldView| field_text(f)), "&"@)
}

/// A field whose value no log shows: the one that carries the password, and any named
/// `passwd`.
pub open spec fn is_secret(key: Seq<char>, pass_field: Seq<char>) -> bool {
    key == pass_field || same_ignoring_case_spec(key, "passwd"@)
}

/// A field as a log shows it.
pub open spec fn shown_field(f: FieldView, pass_field: Seq<char>) -> Seq<char> {
    if is_secret(f.0, pass_field) {
        f.0 + "=***"@
    } else {
        f.0 + "="@ + f.1
    }
}

/// A form as a log shows it.
pub open spec fn form_summary_of(form: Seq<FieldView>, pass_field: Seq<char>) -> Seq<char> {
    joined(form.map_values(|f: FieldView| shown_field(f, pass_field)), ", "@)
}

/// The first field with a name.
fn position(form: &Vec<(String, String)>, key: &str) -> (r: Option<usize>)
    ensures
        match r {
            Some(i) => i < form@.len() && first_where(pairs(form@), named(key@), 0) == Some(
                i as int,
            ),
            None => first_where(pairs(form@), named(key@), 0) is None,
        },
{
    let mut i: usize = 0;
    while i < form.len()
        invariant
            i <= form@.len(),
            first_where(pairs(form@), named(key@), 0) == first_where(
                pairs(form@),
                named(key@),
                i as int,
            ),
        decreases form@.len() - i,
    {
        assert(pairs(form@)[i as int] == pair_view(form@[i as int]));
        if same_text(&form[i].0, key) {
            return Some(i);
        }
        i += 1;
    }
    None
}

/// The first field with a name, the case of letters aside.
fn position_like(form: &Vec<(String, String)>, key: &str) -> (r: Option<usize>)
    ensures
        match r {
            Some(i) => i < form@.len() && first_where(pairs(form@), named_like(key@), 0) == Some(
                i as int,
            ),
            None => first_where(pairs(form@), named_like(key@), 0) is None,
        },
{
    let mut i: usize = 0;
    while i < form.len()
        invariant
            i <= form@.len(),
            first_where(pairs(form@), named_like(key@), 0) == first_where(
                pairs(form@),
                named_like(key@),
                i as int,
            ),
        decreases form@.len() - i,
    {
        assert(pairs(form@)[i as int] == pair_view(form@[i as int]));
        if same_ignoring_case(&form[i].0, key) {
            return Some(i);
        }
        i += 1;
    }
    None
}

/// Gives a field a new value.
fn set_value(form: &mut Vec<(String, String)>, i: usize, value: &str)
    requires
        i < old(form)@.len(),
    ensures
        pairs(final(form)@) == pairs(old(form)@).update(
            i as int,
            (pairs(old(form)@)[i as int].0, value@),
        ),
{
    let key = form[i].0.as_str().to_owned();
    form.set(i, (key, value.to_owned()));
    assert(pairs(form@) == pairs(old(form)@).update(
        i as int,
        (pairs(old(form)@)[i as int].0, value@),
    ));
}

/// Adds a field.
fn add_field(form: &mut Vec<(String, String)>, key: &str, value: &str)
    ensures
        pairs(final(form)@) == pairs(old(form)@).push((key@, value@)),
{
    form.push((key.to_owned(), value.to_owned()));
    assert(pairs(form@) == pairs(old(form)@).push((key@, value@)));
}

/// Gives the first field with a name a value, and adds the field where there is none.
fn put_field(form: &mut Vec<(String, String)>, key: &str, value: &str)
    ensures
        pairs(final(form)@) == with_field(pairs(old(form)@), key@, value@),
{
    match position(form, key) {
        Some(i) => set_value(form, i, value),
        None => add_field(form, key, value),
    }
}

/// Adds the default fields that a form lacks.
fn add_defaults(form: &mut Vec<(String, String)>)
    ensures
        pairs(final(form)@) == with_defaults(pairs(old(form)@), 9),
{
    let ghost start = pairs(form@);
    let mut i: usize = 0;
    while i < 9
        invariant
            i <= 9,
            pairs(form@) == with_defaults(start, i as int),
        decreases 9 - i,
    {
        let (key, value) = BASE_FORM_DEFAULTS[i];
        assert(default_fields()[i as int] == (key@, value@));
        if position_like(form, key).is_none() {
            add_field(form, key, value);
        }
        i += 1;
    }
}

/// The form that a login submits. It begins with the fields of the page, in their order
/// and under their own names; the default fields that the page lacks follow; the template
/// is that of the device; the account and the password go into the fields named for them.
pub fn login_form(
    fields: Vec<(String, String)>,
    mobile: bool,
    user_field: &str,
    pass_field: &str,
    username: &str,
    password: &str,
) -> (r: Vec<(String, String)>)
    ensures
        pairs(r@) == login_form_of(
            pairs(fields@),
            mobile,
            user_field@,
            pass_field@,
            username@,
            password@,
        ),
{
    let mut form = fields;
    add_defaults(&mut form);
    let template = if mobile {
        "2"
    } else {
        "1"
    };
    match position_like(&form, "templatetype") {
        Some(i) => set_value(&mut form, i, template),
        None => {},
    }
    put_field(&mut form, user_field, username);
    put_field(&mut form, pass_field, password);
    form
}

/// A form as it is submitted: names and values percent-encoded, with `=` between a name
/// and its value and `&` between fields.
pub fn form_body(form: &Vec<(String, String)>) -> (r: String)
    ensures
        r@ == form_body_of(pairs(form@)),
{
    let mut parts: Vec<String> = Vec::new();
    let ghost views = pairs(form@).map_values(|f: FieldView| field_text(f));
    let mut i: usize = 0;
    while i < form.len()
        invariant
            i <= form@.len(),
            views == pairs(form@).map_values(|f: FieldView| field_text(f)),
            texts(parts@) == views.take(i as int),
        decreases form@.len() - i,
    {
        let ghost before = texts(parts@);
        let part = join3(&urlencode(&form[i].0), "=", &urlencode(&form[i].1));
        assert(part@ == views[i as int]) by {
            assert(pairs(form@)[i as int] == pair_view(form@[i as int]));
        }
        parts.push(part);
        assert(texts(parts@) == before.push(part@));
        i += 1;
        assert(texts(parts@) == views.take(i as int));
    }
    assert(views.take(views.len() as int) == views);
    join_texts(&parts, "&")
}

/// A form as a log shows it: without the password.
pub fn form_summary(form: &Vec<(String, String)>, pass_field: &str) -> (r: String)
    ensures
        r@ == form_summary_of(pairs(form@), pass_field@),
{
    let mut parts: Vec<String> = Vec::new();
    let ghost views = pairs(form@).map_values(|f: FieldView| shown_field(f, pass_field@));
    let mut i: usize = 0;
    while i < form.len()
        invariant
            i <= form@.len(),
            views == pairs(form@).map_values(|f: FieldView| shown_field(f, pass_field@)),
            texts(parts@) == views.take(i as int),
        decreases form@.len() - i,
    {
        let ghost before = texts(parts@);
        let key = &form[i].0;
        let part = if same_text(key, pass_field) || same_ignoring_case(key, "passwd") {
            join2(key, "=***")
        } else {
            join3(key, "=", &form[i].1)
        };
        assert(part@ == views[i as int]) by {
            assert(pairs(form@)[i as int] == pair_view(form@[i as int]));
        }
        parts.push(part);
        assert(texts(parts@) == before.push(part@));
        i += 1;
        assert(texts(parts@) == views.take(i as int));
    }
    assert(views.take(views.len() as int) == views);
    join_texts(&parts, ", ")
}

// ---------------------------------------------------------------------------
// Laws
// ---------------------------------------------------------------------------

/// Default fields go behind the fields that are there.
pub proof fn lemma_defaults_follow(form: Seq<FieldView>, n: int)
    requires
        0 <= n <= 9,
    ensures
        with_defaults(form, n).len() >= form.len(),
        with_defaults(form, n).take(form.len() as int) == form,
    decreases n,
{
    if n > 0 {
        lemma_defaults_follow(form, n - 1);
        let before = with_defaults(form, n - 1);
        assert(before.push(default_fields()[n - 1]).take(form.len() as int) == before.take(
            form.len() as int,
        ));
    } else {
        assert(form.take(form.len() as int) == form);
    }
}

/// A field that satisfies `p` stays where it is found first when fields are added behind.
proof fn lemma_found_stays(form: Seq<FieldView>, p: spec_fn(FieldView) -> bool, more: FieldView)
    requires
        first_where(form, p, 0) is Some,
    ensures
        first_where(form.push(more), p, 0) is Some,
{
    lemma_first_where(form, p, 0);
    lemma_first_where(form.push(more), p, 0);
    let i = first_where(form, p, 0)->0;
    assert(form.push(more)[i] == form[i]);
}

/// Each of the first `n` default fields is there, the case of letters aside.
proof fn lemma_defaults_are_there(form: Seq<FieldView>, n: int, j: int)
    requires
        0 <= j < n <= 9,
    ensures
        first_where(with_defaults(form, n), named_like(default_fields()[j].0), 0) is Some,
    decreases n,
{
    let before = with_defaults(form, n - 1);
    let field = default_fields()[n - 1];
    let p = named_like(default_fields()[j].0);
    if j < n - 1 {
        lemma_defaults_are_there(form, n - 1, j);
        if first_where(before, named_like(field.0), 0) is None {
            lemma_found_stays(before, p, field);
        }
    } else if first_where(before, p, 0) is None {
        let after = before.push(field);
        lemma_first_where(after, p, 0);
        assert(after[before.len() as int] == field);
        assert(p(after[before.len() as int]));
    }
}

/// Giving a field a value keeps all names, and all other values.
pub proof fn lemma_field_is_put(form: Seq<FieldView>, key: Seq<char>, value: Seq<char>)
    ensures
        ({
            let after = with_field(form, key, value);
            &&& form.len() <= after.len()
            &&& forall|i: int| 0 <= i < form.len() ==> (#[trigger] after[i]).0 == form[i].0
            &&& forall|i: int|
                0 <= i < form.len() && form[i].0 != key ==> #[trigger] after[i] == form[i]
            &&& first_where(after, named(key), 0) matches Some(i) && after[i] == (key, value)
        }),
{
    let after = with_field(form, key, value);
    lemma_first_where(form, named(key), 0);
    lemma_first_where(after, named(key), 0);
    match first_where(form, named(key), 0) {
        Some(i) => {
            assert(named(key)(after[i]));
            let k = first_where(after, named(key), 0)->0;
            if k < i {
                assert(after[k] == form[k]);
                assert(!named(key)(form[k]));
            }
        },
        None => {
            assert(named(key)(after[form.len() as int]));
            let k = first_where(after, named(key), 0)->0;
            if k < form.len() {
                assert(after[k] == form[k]);
                assert(!named(key)(form[k]));
            }
        },
    }
}

/// Giving a field a value moves no field with another name.
proof fn lemma_other_field_stays(
    form: Seq<FieldView>,
    key: Seq<char>,
    value: Seq<char>,
    p: spec_fn(FieldView) -> bool,
)
    requires
        forall|a: FieldView, b: FieldView| a.0 == b.0 ==> #[trigger] p(a) == #[trigger] p(b),
        forall|a: FieldView| a.0 == key ==> !#[trigger] p(a),
    ensures
        first_where(with_field(form, key, value), p, 0) == first_where(form, p, 0),
        first_where(form, p, 0) matches Some(i) ==> with_field(form, key, value)[i] == form[i],
{
    let after = with_field(form, key, value);
    lemma_field_is_put(form, key, value);
    lemma_first_where(form, p, 0);
    lemma_first_where(after, p, 0);
    match first_where(form, p, 0) {
        Some(i) => {
            assert(p(form[i]));
            assert(form[i].0 != key);
            assert(after[i] == form[i]);
            let k = first_where(after, p, 0)->0;
            if k < i {
                assert(p(after[k]) == p(form[k]));
            }
        },
        None => {
            if let Some(k) = first_where(after, p, 0) {
                assert(p(after[k]));
                assert(after[k].0 != key);
                assert(k < form.len()) by {
                    lemma_first_where(form, named(key), 0);
                }
                assert(p(after[k]) == p(form[k]));
            }
        },
    }
}

/// The form begins with the fields of the page: in the page's order, under the page's own
/// names, and with the page's values but for the template, the account and the password.
pub proof fn law_form_keeps_the_page(
    fields: Seq<FieldView>,
    mobile: bool,
    user_field: Seq<char>,
    pass_field: Seq<char>,
    username: Seq<char>,
    password: Seq<char>,
    i: int,
)
    requires
        0 <= i < fields.len(),
    ensures
        ({
            let form = login_form_of(fields, mobile, user_field, pass_field, username, password);
            &&& fields.len() <= form.len()
            &&& form[i].0 == fields[i].0
            &&& !same_ignoring_case_spec(fields[i].0, "templatetype"@) && fields[i].0 != user_field
                && fields[i].0 != pass_field ==> form[i] == fields[i]
        }),
{
    let full = with_defaults(fields, 9);
    lemma_defaults_follow(fields, 9);
    assert(full[i] == full.take(fields.len() as int)[i]);
    let like = named_like("templatetype"@);
    lemma_first_where(full, like, 0);
    let set = with_first(full, like, template_of(mobile));
    lemma_field_is_put(set, user_field, username);
    lemma_field_is_put(with_field(set, user_field, username), pass_field, password);
}

/// The form carries the credentials: the first field named for the password has it, and so
/// has the first field named for the account, where the page does not give both one name.
pub proof fn law_form_carries_the_credentials(
    fields: Seq<FieldView>,
    mobile: bool,
    user_field: Seq<char>,
    pass_field: Seq<char>,
    username: Seq<char>,
    password: Seq<char>,
)
    ensures
        ({
            let form = login_form_of(fields, mobile, user_field, pass_field, username, password);
            &&& first_where(form, named(pass_field), 0) matches Some(i) && form[i] == (
                pass_field,
                password,
            )
            &&& user_field != pass_field ==> (first_where(form, named(user_field), 0) matches Some(
                i,
            ) && form[i] == (user_field, username))
        }),
{
    let set = with_first(
        with_defaults(fields, 9),
        named_like("templatetype"@),
        template_of(mobile),
    );
    let half = with_field(set, user_field, username);
    lemma_field_is_put(set, user_field, username);
    lemma_field_is_put(half, pass_field, password);
    if user_field != pass_field {
        lemma_other_field_stays(half, pass_field, password, named(user_field));
    }
}

/// The form names the kind of device: the first template field has its number, where the
/// credentials go elsewhere.
pub proof fn law_form_names_the_device(
    fields: Seq<FieldView>,
    mobile: bool,
    user_field: Seq<char>,
    pass_field: Seq<char>,
    username: Seq<char>,
    password: Seq<char>,
)
    requires
        !same_ignoring_case_spec(user_field, "templatetype"@),
        !same_ignoring_case_spec(pass_field, "templatetype"@),
    ensures
        ({
            let form = login_form_of(fields, mobile, user_field, pass_field, username, password);
            first_where(form, named_like("templatetype"@), 0) matches Some(i) && form[i].1
                == template_of(mobile)
        }),
{
    let full = with_defaults(fields, 9);
    let like = named_like("templatetype"@);
    assert(default_fields()[6].0 == "templatetype"@);
    lemma_defaults_are_there(fields, 9, 6);
    let set = with_first(full, like, template_of(mobile));
    lemma_first_where(full, like, 0);
    lemma_first_where(set, like, 0);
    let i = first_where(full, like, 0)->0;
    assert(like(set[i]));
    let k = first_where(set, like, 0)->0;
    if k < i {
        assert(set[k] == full[k]);
    }
    lemma_other_field_stays(set, user_field, username, like);
    lemma_other_field_stays(with_field(set, user_field, username), pass_field, password, like);
}

/// The form lacks none of the default fields, the case of letters aside.
pub proof fn law_form_has_the_defaults(
    fields: Seq<FieldView>,
    mobile: bool,
    user_field: Seq<char>,
    pass_field: Seq<char>,
    username: Seq<char>,
    password: Seq<char>,
    j: int,
)
    requires
        0 <= j < 9,
    ensures
        first_where(
            login_form_of(fields, mobile, user_field, pass_field, username, password),
            named_like(default_fields()[j].0),
            0,
        ) is Some,
{
    let like = named_like(default_fields()[j].0);
    let full = with_defaults(fields, 9);
    lemma_defaults_are_there(fields, 9, j);
    lemma_first_where(full, like, 0);
    let i = first_where(full, like, 0)->0;
    lemma_first_where(full, named_like("templatetype"@), 0);
    let set = with_first(full, named_like("templatetype"@), template_of(mobile));
    let half = with_field(set, user_field, username);
    let form = with_field(half, pass_field, password);
    lemma_field_is_put(set, user_field, username);
    lemma_field_is_put(half, pass_field, password);
    assert(form[i].0 == full[i].0);
    assert(like(form[i]));
    lemma_first_where(form, like, 0);
}

/// What a log shows of the form does not depend on the password.
pub proof fn law_summary_hides_the_password(
    fields: Seq<FieldView>,
    mobile: bool,
    user_field: Seq<char>,
    pass_field: Seq<char>,
    username: Seq<char>,
    password: Seq<char>,
    other: Seq<char>,
)
    ensures
        form_summary_of(
            login_form_of(fields, mobile, user_field, pass_field, username, password),
            pass_field,
        ) == form_summary_of(
            login_form_of(fields, mobile, user_field, pass_field, username, other),
            pass_field,
        ),
{
    let half = with_field(
        with_first(
            with_defaults(fields, 9),
            named_like("templatetype"@),
            template_of(mobile),
        ),
        user_field,
        username,
    );
    let (x, y) = (with_field(half, pass_field, password), with_field(half, pass_field, other));
    lemma_first_where(half, named(pass_field), 0);
    assert(x.map_values(|f: FieldView| shown_field(f, pass_field)) == y.map_values(
        |f: FieldView| shown_field(f, pass_field),
    ));
}

/// What a server reads in a submitted form: the fields between the ampersands, name and
/// value on either side of the first equals sign, percent-decoded.
pub open spec fn form_read(body: Seq<char>) -> Seq<(Option<Seq<u8>>, Option<Seq<u8>>)> {
    split_on(body, "&"@).map_values(
        |piece: Seq<char>|
            {
                let eq = first_stop(piece, 0, at_char('='));
                (percent_decoded(piece.take(eq)), percent_decoded(piece.skip(eq + 1)))
            },
    )
}

/// A text without the separator is one piece, and so is what stands before the first
/// separator.
proof fn lemma_split_first(head: Seq<char>, tail: Seq<char>)
    requires
        forall|i: int| 0 <= i < head.len() ==> #[trigger] head[i] != '&',
    ensures
        split_on(head, "&"@) == seq![head],
        split_on(head + "&"@ + tail, "&"@) == seq![head] + split_on(tail, "&"@),
{
    reveal_strlit("&");
    lemma_find_from(head, "&"@, 0);
    if let Some(i) = find_from(head, "&"@, 0) {
        assert(occurs_at(head, "&"@, i));
        assert(head.subrange(i, i + 1)[0] == head[i]);
    }
    let s = head + "&"@ + tail;
    lemma_find_from(s, "&"@, 0);
    assert(s.subrange(head.len() as int, head.len() as int + 1) == "&"@);
    assert(occurs_at(s, "&"@, head.len() as int));
    let i = find_from(s, "&"@, 0)->0;
    if i < head.len() {
        assert(s.subrange(i, i + 1)[0] == head[i]);
    }
    assert(s.take(i) == head);
    assert(s.skip(i + 1) == tail);
}

/// A submitted field holds no ampersand, and its first equals sign is behind the name.
proof fn lemma_field_text(f: FieldView)
    ensures
        forall|i: int| 0 <= i < field_text(f).len() ==> #[trigger] field_text(f)[i] != '&',
        ({
            let piece = field_text(f);
            let eq = first_stop(piece, 0, at_char('='));
            &&& piece.take(eq) == percent_encoded(f.0)
            &&& piece.skip(eq + 1) == percent_encoded(f.1)
        }),
{
    reveal_strlit("=");
    let (k, v) = (percent_encoded(f.0), percent_encoded(f.1));
    let piece = field_text(f);
    assert forall|i: int| 0 <= i < k.len() implies #[trigger] k[i] != '&' && k[i] != '=' by {
        law_percent_encoding_is_plain(f.0, i);
    }
    assert forall|i: int| 0 <= i < v.len() implies #[trigger] v[i] != '&' by {
        law_percent_encoding_is_plain(f.1, i);
    }
    assert forall|i: int| 0 <= i < piece.len() implies #[trigger] piece[i] != '&' by {
        if i < k.len() {
            assert(piece[i] == k[i]);
        } else if i > k.len() {
            assert(piece[i] == v[i - k.len() - 1]);
        }
    }
    lemma_first_stop(piece, 0, at_char('='));
    let eq = first_stop(piece, 0, at_char('='));
    assert(piece[k.len() as int] == '=');
    if eq < k.len() {
        assert(piece[eq] == k[eq]);
    }
    assert(piece.take(eq) == k);
    assert(piece.skip(eq + 1) == v);
}

/// The pieces of a submitted form are its fields.
proof fn lemma_body_splits(parts: Seq<Seq<char>>)
    requires
        parts.len() > 0,
        forall|n: int, i: int|
            0 <= n < parts.len() && 0 <= i < parts[n].len() ==> #[trigger] parts[n][i] != '&',
    ensures
        split_on(joined(parts, "&"@), "&"@) == parts,
    decreases parts.len(),
{
    if parts.len() == 1 {
        lemma_split_first(parts[0], Seq::empty());
        assert(parts == seq![parts[0]]);
    } else {
        let rest = parts.skip(1);
        assert forall|n: int, i: int|
            0 <= n < rest.len() && 0 <= i < rest[n].len() implies #[trigger] rest[n][i] != '&' by {
            assert(rest[n] == parts[n + 1]);
        }
        lemma_body_splits(rest);
        lemma_split_first(parts[0], joined(rest, "&"@));
        assert(parts == seq![parts[0]] + rest);
    }
}

/// A server reads in the submitted form the names and values that were put into it.
pub proof fn law_form_comes_back(form: Seq<FieldView>)
    requires
        form.len() > 0,
    ensures
        form_read(form_body_of(form)) == form.map_values(
            |f: FieldView| (Some(encode_utf8(f.0)), Some(encode_utf8(f.1))),
        ),
{
    let parts = form.map_values(|f: FieldView| field_text(f));
    assert forall|n: int, i: int|
        0 <= n < parts.len() && 0 <= i < parts[n].len() implies #[trigger] parts[n][i] != '&' by {
        lemma_field_text(form[n]);
    }
    lemma_body_splits(parts);
    let got = form_read(form_body_of(form));
    let want = form.map_values(|f: FieldView| (Some(encode_utf8(f.0)), Some(encode_utf8(f.1))));
    assert forall|n: int| 0 <= n < form.len() implies #[trigger] got[n] == want[n] by {
        lemma_field_text(form[n]);
        law_percent_encoding_comes_back(form[n].0);
        law_percent_encoding_comes_back(form[n].1);
        assert(split_on(form_body_of(form), "&"@)[n] == field_text(form[n]));
    }
    assert(got =~= want);
}

} // verus!
