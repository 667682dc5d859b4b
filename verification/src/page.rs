//! Portal pages: the `<input>` tags of a page, the form fields they stand for, which
//! of them take the account and the password, and the message a reply page carries.
use vstd::prelude::*;
use crate::text::{
    at_char, chars_of, contains, contains_text, find, find_from, first_stop, first_where,
    is_tag_space, is_tag_space_spec, last_where, lemma_find_behind, lemma_find_from, lemma_first_stop, lemma_first_stop_behind,
    lemma_first_where, lemma_last_where, lemma_somes, lemma_somes_parts, lower, lower_char_spec, lower_chars, lower_text, opt_text,
    occurs_at, pair_view, pairs, replace, replaced, same_text, scan_to, scan_to_char, somes, text_of,
};

verus! {

// ---------------------------------------------------------------------------
// Attributes of a tag
// ---------------------------------------------------------------------------

/// White space between attributes.
pub open spec fn at_space() -> spec_fn(char) -> bool {
    |c: char| is_tag_space_spec(c)
}

/// Anything but white space between attributes.
pub open spec fn off_space() -> spec_fn(char) -> bool {
    |c: char| !is_tag_space_spec(c)
}

/// The end of an attribute's name: an equals sign or white space.
pub open spec fn at_name_end() -> spec_fn(char) -> bool {
    |c: char| c == '=' || is_tag_space_spec(c)
}

/// A quotation mark.
pub open spec fn is_quote(c: char) -> bool {
    c == '"' || c == '\''
}

/// Whether `c` is anything but white space between attributes.
fn is_not_tag_space(c: char) -> (r: bool)
    ensures
        r == !is_tag_space_spec(c),
{
    !is_tag_space(c)
}

/// Whether `c` ends an attribute's name.
fn ends_name(c: char) -> (r: bool)
    ensures
        r == (c == '=' || is_tag_space_spec(c)),
{
    c == '=' || is_tag_space(c)
}

/// What may close a tag: slashes and white space.
pub open spec fn is_closing(c: char) -> bool {
    c == '/' || is_tag_space_spec(c)
}

/// The length of a tag without the slashes and the white space that close it.
pub open spec fn open_len(tag: Seq<char>) -> int
    decreases tag.len(),
{
    if tag.len() > 0 && is_closing(tag.last()) {
        open_len(tag.drop_last())
    } else {
        tag.len() as int
    }
}

/// What `open_len` returns: nothing but slashes and white space stands behind it, and
/// neither stands before it.
pub proof fn lemma_open_len(tag: Seq<char>)
    ensures
        0 <= open_len(tag) <= tag.len(),
        forall|i: int| open_len(tag) <= i < tag.len() ==> is_closing(#[trigger] tag[i]),
        open_len(tag) > 0 ==> !is_closing(tag[open_len(tag) - 1]),
    decreases tag.len(),
{
    if tag.len() > 0 && is_closing(tag.last()) {
        lemma_open_len(tag.drop_last());
        assert forall|i: int| open_len(tag) <= i < tag.len() implies is_closing(
            #[trigger] tag[i],
        ) by {
            if i < tag.len() - 1 {
                assert(tag[i] == tag.drop_last()[i]);
            }
        }
        if open_len(tag) > 0 {
            assert(tag[open_len(tag) - 1] == tag.drop_last()[open_len(tag) - 1]);
        }
    }
}

/// Where the slashes and the white space begin that close a tag.
fn find_closing(tag: &[char]) -> (r: usize)
    ensures
        r == open_len(tag@),
        r <= tag@.len(),
{
    let mut end: usize = tag.len();
    assert(tag@.take(end as int) == tag@);
    while end > 0 && (tag[end - 1] == '/' || is_tag_space(tag[end - 1]))
        invariant
            end <= tag@.len(),
            open_len(tag@) == open_len(tag@.take(end as int)),
        decreases end,
    {
        assert(tag@.take(end as int).drop_last() == tag@.take(end - 1));
        assert(tag@.take(end as int).last() == tag@[end - 1]);
        end -= 1;
    }
    proof {
        if end > 0 {
            assert(tag@.take(end as int).last() == tag@[end - 1]);
        }
    }
    end
}

/// The attributes of a tag from position `i` on: the name in small letters, the value as
/// it is written. An attribute without an equals sign has the empty value. A value is
/// what stands between two equal quotation marks, or what reaches to the next white
/// space; an open quotation reaches to the end of the tag. The slashes that close a tag are
/// part of no name.
pub open spec fn attrs_from(tag: Seq<char>, i: int) -> Seq<(Seq<char>, Seq<char>)>
    decreases tag.len() + 1 - i,
{
    if i < 0 || i >= open_len(tag) {
        Seq::empty()
    } else {
        let open = tag.take(open_len(tag));
        let start = first_stop(tag, i, off_space());
        let stop = first_stop(open, start, at_name_end());
        let key = lower(tag.subrange(start, stop));
        proof {
            lemma_open_len(tag);
            lemma_first_stop(tag, i, off_space());
            assert(off_space()(tag[open_len(tag) - 1]));
            lemma_first_stop(open, start, at_name_end());
        }
        if stop >= open.len() || tag[stop] != '=' {
            if stop > start {
                seq![(key, Seq::<char>::empty())] + attrs_from(tag, stop)
            } else {
                Seq::empty()
            }
        } else if stop + 1 < tag.len() && is_quote(tag[stop + 1]) {
            let end = first_stop(tag, stop + 2, at_char(tag[stop + 1]));
            proof {
                lemma_first_stop(tag, stop + 2, at_char(tag[stop + 1]));
            }
            seq![(key, tag.subrange(stop + 2, end))] + attrs_from(tag, end + 1)
        } else {
            let end = first_stop(tag, stop + 1, at_space());
            proof {
                lemma_first_stop(tag, stop + 1, at_space());
            }
            seq![(key, tag.subrange(stop + 1, end))] + attrs_from(tag, end + 1)
        }
    }
}

/// The attributes of a tag, in order.
pub open spec fn attrs(tag: Seq<char>) -> Seq<(Seq<char>, Seq<char>)> {
    attrs_from(tag, 0)
}

/// The attributes of a tag, in order: each name in small letters, each value as it is
/// written.
pub fn split_attrs(tag: &[char]) -> (r: Vec<(String, String)>)
    ensures
        pairs(r@) == attrs(tag@),
{
    let mut out: Vec<(String, String)> = Vec::new();
    let len = find_closing(tag);
    let open = &tag[0..len];
    assert(open@ == tag@.take(len as int));
    let mut i: usize = 0;
    while i < len
        invariant
            len == open_len(tag@),
            len <= tag@.len(),
            open@ == tag@.take(len as int),
            pairs(out@) + attrs_from(tag@, i as int) == attrs(tag@),
        decreases tag@.len() - i,
    {
        let ghost before = pairs(out@);
        let ghost from = i as int;
        proof {
            lemma_open_len(tag@);
            lemma_first_stop(tag@, from, off_space());
            assert(off_space()(tag@[len - 1]));
        }
        let start = scan_to(tag, i, is_not_tag_space, Ghost(off_space()));
        assert(start < len);
        let stop = scan_to(open, start, ends_name, Ghost(at_name_end()));
        proof {
            lemma_first_stop(open@, start as int, at_name_end());
        }
        let key = text_of(&lower_chars(&tag[start..stop]));
        if stop >= len || tag[stop] != '=' {
            assert(stop > start) by {
                assert(off_space()(tag@[start as int]));
                assert(open@[start as int] == tag@[start as int]);
            }
            out.push((key, String::new()));
            assert(pairs(out@) == before.push((key@, Seq::<char>::empty())));
            i = stop;
            assert(pairs(out@) + attrs_from(tag@, i as int) == before + attrs_from(tag@, from));
        } else if stop + 1 < tag.len() && (tag[stop + 1] == '"' || tag[stop + 1] == '\'') {
            let quote = tag[stop + 1];
            let end = scan_to_char(tag, stop + 2, quote);
            let value = text_of(&tag[stop + 2..end]);
            out.push((key, value));
            assert(pairs(out@) == before.push((key@, value@)));
            if end == tag.len() {
                assert(attrs_from(tag@, end + 1) == Seq::<(Seq<char>, Seq<char>)>::empty());
                assert(attrs_from(tag@, end as int) == Seq::<(Seq<char>, Seq<char>)>::empty());
                i = end;
            } else {
                i = end + 1;
            }
            assert(pairs(out@) + attrs_from(tag@, i as int) == before + attrs_from(tag@, from));
        } else {
            let end = scan_to(tag, stop + 1, is_tag_space, Ghost(at_space()));
            let value = text_of(&tag[stop + 1..end]);
            out.push((key, value));
            assert(pairs(out@) == before.push((key@, value@)));
            if end == tag.len() {
                assert(attrs_from(tag@, end + 1) == Seq::<(Seq<char>, Seq<char>)>::empty());
                assert(attrs_from(tag@, end as int) == Seq::<(Seq<char>, Seq<char>)>::empty());
                i = end;
            } else {
                i = end + 1;
            }
            assert(pairs(out@) + attrs_from(tag@, i as int) == before + attrs_from(tag@, from));
        }
    }
    assert(attrs_from(tag@, i as int) == Seq::<(Seq<char>, Seq<char>)>::empty());
    assert(pairs(out@) == attrs(tag@));
    out
}

/// The value of the last attribute named `key`.
pub open spec fn last_value(attrs: Seq<(Seq<char>, Seq<char>)>, key: Seq<char>) -> Option<Seq<char>>
    decreases attrs.len(),
{
    if attrs.len() == 0 {
        None
    } else if attrs.last().0 == key {
        Some(attrs.last().1)
    } else {
        last_value(attrs.drop_last(), key)
    }
}

/// The value of the last attribute named `key`.
fn value_of(attrs: &Vec<(String, String)>, key: &str) -> (r: Option<String>)
    ensures
        opt_text(r) == last_value(pairs(attrs@), key@),
{
    let mut i: usize = attrs.len();
    assert(pairs(attrs@).take(i as int) == pairs(attrs@));
    while i > 0
        invariant
            i <= attrs@.len(),
            last_value(pairs(attrs@), key@) == last_value(pairs(attrs@).take(i as int), key@),
        decreases i,
    {
        let ghost head = pairs(attrs@).take(i as int);
        assert(head.last() == pair_view(attrs@[i - 1]));
        assert(head.drop_last() == pairs(attrs@).take(i - 1));
        if same_text(&attrs[i - 1].0, key) {
            return Some(attrs[i - 1].1.clone());
        }
        i -= 1;
    }
    None
}

// ---------------------------------------------------------------------------
// Input tags of a page
// ---------------------------------------------------------------------------

/// The `<input` tags of a page from position `from` on, each without the `>` that ends
/// it. A tag that nothing ends is none.
pub open spec fn input_tags_from(html: Seq<char>, from: int) -> Seq<Seq<char>>
    decreases html.len() - from,
{
    if from < 0 || from > html.len() {
        Seq::empty()
    } else {
        proof {
            lemma_find_from(lower(html), "<input"@, from);
        }
        match find_from(lower(html), "<input"@, from) {
            None => Seq::empty(),
            Some(start) => {
                let end = first_stop(html, start, at_char('>'));
                proof {
                    lemma_first_stop(html, start, at_char('>'));
                }
                if end >= html.len() {
                    Seq::empty()
                } else {
                    seq![html.subrange(start, end)] + input_tags_from(html, end + 1)
                }
            },
        }
    }
}

/// The `<input` tags of a page, in order, each without the `>` that ends it.
pub open spec fn input_tags(html: Seq<char>) -> Seq<Seq<char>> {
    input_tags_from(html, 0)
}

/// The characters of a list of tags.
pub open spec fn tag_texts(s: Seq<Vec<char>>) -> Seq<Seq<char>> {
    s.map_values(|t: Vec<char>| t@)
}

/// The `<input` tags of a page, in order, each without the `>` that ends it.
fn find_input_tags(html: &str) -> (r: Vec<Vec<char>>)
    ensures
        tag_texts(r@) == input_tags(html@),
{
    let chars = chars_of(html);
    let small = lower_chars(&chars);
    let opening = chars_of("<input");
    let mut out: Vec<Vec<char>> = Vec::new();
    let mut from: usize = 0;
    loop
        invariant
            from <= chars@.len(),
            chars@ == html@,
            small@ == lower(chars@),
            opening@ == "<input"@,
            tag_texts(out@) + input_tags_from(html@, from as int) == input_tags(html@),
        decreases chars@.len() - from,
    {
        let ghost before = tag_texts(out@);
        match find(&small, &opening, from) {
            None => {
                assert(tag_texts(out@) == input_tags(html@));
                return out;
            },
            Some(start) => {
                let end = scan_to_char(&chars, start, '>');
                if end >= chars.len() {
                    assert(tag_texts(out@) == input_tags(html@));
                    return out;
                }
                let mut tag: Vec<char> = Vec::new();
                tag.extend_from_slice(&chars[start..end]);
                assert(tag@ == html@.subrange(start as int, end as int));
                out.push(tag);
                assert(tag_texts(out@) == before.push(tag@));
                from = end + 1;
            },
        }
    }
}

// ---------------------------------------------------------------------------
// Form fields
// ---------------------------------------------------------------------------

/// A value with the entities of the ampersand, the double quotation mark and the
/// apostrophe resolved, in that order.
pub open spec fn unescaped(s: Seq<char>) -> Seq<char> {
    replaced(
        replaced(replaced(s, "&amp;"@, "&"@), "&quot;"@, "\""@),
        "&#39;"@,
        "'"@,
    )
}

/// The empty text in place of an absent one.
pub open spec fn or_empty(s: Option<Seq<char>>) -> Seq<char> {
    match s {
        Some(t) => t,
        None => Seq::empty(),
    }
}

/// An attribute named `disabled` stands in the tag.
pub open spec fn is_disabled(tag: Seq<char>) -> bool {
    last_value(attrs(tag), "disabled"@) is Some
}

/// The form field of an input tag: its name and its value. A disabled input, or one
/// without a name, gives none.
pub open spec fn tag_field(tag: Seq<char>) -> Option<(Seq<char>, Seq<char>)> {
    if is_disabled(tag) {
        None
    } else {
        match last_value(attrs(tag), "name"@) {
            None => None,
            Some(name) => Some((name, unescaped(or_empty(last_value(attrs(tag), "value"@))))),
        }
    }
}

/// The form fields of a page, in the order of the page, names and values as they are
/// written there.
pub open spec fn form_fields(html: Seq<char>) -> Seq<(Seq<char>, Seq<char>)> {
    somes(input_tags(html).map_values(|t: Seq<char>| tag_field(t)))
}

/// An input of a page: its name, its type in small letters, and its value.
pub type InputView = (Seq<char>, Seq<char>, Seq<char>);

/// The input of a tag: its name, its type (`text` where it has none) and its value. A
/// disabled input, or one without a name or with an empty one, gives none.
pub open spec fn tag_input(tag: Seq<char>) -> Option<InputView> {
    match (tag_field(tag), last_value(attrs(tag), "type"@)) {
        (None, _) => None,
        (Some((name, value)), typ) => if name.len() == 0 {
            None
        } else {
            Some(
                (
                    name,
                    match typ {
                        Some(t) => lower(t),
                        None => "text"@,
                    },
                    value,
                ),
            )
        },
    }
}

/// The named inputs of a page, in the order of the page.
pub open spec fn form_inputs(html: Seq<char>) -> Seq<InputView> {
    somes(input_tags(html).map_values(|t: Seq<char>| tag_input(t)))
}

/// The characters of an input.
pub open spec fn input_view(p: (String, String, String)) -> InputView {
    (p.0@, p.1@, p.2@)
}

/// The characters of a list of inputs.
pub open spec fn inputs_view(s: Seq<(String, String, String)>) -> Seq<InputView> {
    s.map_values(|p: (String, String, String)| input_view(p))
}

/// The value with its entities resolved.
fn unescape(s: &str) -> (r: String)
    ensures
        r@ == unescaped(s@),
{
    proof {
        reveal_strlit("&amp;");
        reveal_strlit("&quot;");
        reveal_strlit("&#39;");
    }
    let a = replace(&chars_of(s), &chars_of("&amp;"), &chars_of("&"));
    let b = replace(&a, &chars_of("&quot;"), &chars_of("\""));
    let c = replace(&b, &chars_of("&#39;"), &chars_of("'"));
    text_of(&c)
}

/// The form field of an input tag.
fn field_of_attrs(attrs_of_tag: &Vec<(String, String)>, Ghost(tag): Ghost<Seq<char>>) -> (r: Option<
    (String, String),
>)
    requires
        pairs(attrs_of_tag@) == attrs(tag),
    ensures
        match r {
            Some(p) => tag_field(tag) == Some(pair_view(p)),
            None => tag_field(tag) is None,
        },
{
    if value_of(attrs_of_tag, "disabled").is_some() {
        return None;
    }
    match value_of(attrs_of_tag, "name") {
        None => None,
        Some(name) => {
            let raw = match value_of(attrs_of_tag, "value") {
                Some(v) => v,
                None => String::new(),
            };
            Some((name, unescape(&raw)))
        },
    }
}

/// The fields that a form on the page would submit: the name and the value of each
/// `<input>` that is not disabled, in the order of the page.
pub fn parse_form_fields(html: &str) -> (r: Vec<(String, String)>)
    ensures
        pairs(r@) == form_fields(html@),
{
    let tags = find_input_tags(html);
    let mut out: Vec<(String, String)> = Vec::new();
    let ghost found = input_tags(html@).map_values(|t: Seq<char>| tag_field(t));
    let mut i: usize = 0;
    while i < tags.len()
        invariant
            i <= tags@.len(),
            tag_texts(tags@) == input_tags(html@),
            found == input_tags(html@).map_values(|t: Seq<char>| tag_field(t)),
            pairs(out@) == somes(found.take(i as int)),
        decreases tags@.len() - i,
    {
        let ghost before = pairs(out@);
        assert(found.take(i + 1).drop_last() == found.take(i as int));
        assert(tag_texts(tags@)[i as int] == tags@[i as int]@);
        assert(found[i as int] == tag_field(tags@[i as int]@));
        let parts = split_attrs(&tags[i]);
        match field_of_attrs(&parts, Ghost(tags@[i as int]@)) {
            Some(field) => {
                out.push(field);
                assert(pairs(out@) == before.push(pair_view(field)));
            },
            None => {},
        }
        i += 1;
    }
    assert(found.take(i as int) == found);
    out
}

/// The named inputs of the page that are not disabled, in the order of the page: name,
/// type in small letters (`text` where none is given) and value (empty where none is
/// given).
pub fn parse_form_inputs(html: &str) -> (r: Vec<(String, String, String)>)
    ensures
        inputs_view(r@) == form_inputs(html@),
{
    let tags = find_input_tags(html);
    let mut out: Vec<(String, String, String)> = Vec::new();
    let ghost found = input_tags(html@).map_values(|t: Seq<char>| tag_input(t));
    let mut i: usize = 0;
    while i < tags.len()
        invariant
            i <= tags@.len(),
            tag_texts(tags@) == input_tags(html@),
            found == input_tags(html@).map_values(|t: Seq<char>| tag_input(t)),
            inputs_view(out@) == somes(found.take(i as int)),
        decreases tags@.len() - i,
    {
        let ghost before = inputs_view(out@);
        assert(found.take(i + 1).drop_last() == found.take(i as int));
        assert(tag_texts(tags@)[i as int] == tags@[i as int]@);
        assert(found[i as int] == tag_input(tags@[i as int]@));
        let parts = split_attrs(&tags[i]);
        match field_of_attrs(&parts, Ghost(tags@[i as int]@)) {
            Some(field) => {
                let typ = match value_of(&parts, "type") {
                    Some(t) => lower_text(&t),
                    None => "text".to_owned(),
                };
                if !field.0.as_str().is_empty() {
                    let input = (field.0, typ, field.1);
                    out.push(input);
                    assert(inputs_view(out@) == before.push(input_view(input)));
                }
            },
            None => {},
        }
        i += 1;
    }
    assert(found.take(i as int) == found);
    out
}

// ---------------------------------------------------------------------------
// Account and password fields
// ---------------------------------------------------------------------------

/// The types of input into which no text is typed.
pub open spec fn is_textless(typ: Seq<char>) -> bool {
    ||| typ == "hidden"@
    ||| typ == "submit"@
    ||| typ == "button"@
    ||| typ == "reset"@
    ||| typ == "image"@
    ||| typ == "checkbox"@
    ||| typ == "radio"@
    ||| typ == "file"@
}

/// A name that hints at an account.
pub open spec fn hints_account(name: Seq<char>) -> bool {
    ||| contains(lower(name), "user"@)
    ||| contains(lower(name), "account"@)
    ||| contains(lower(name), "login"@)
    ||| contains(lower(name), "name"@)
    ||| contains(lower(name), "id"@)
}

/// Inputs for a password.
pub open spec fn password_input() -> spec_fn(InputView) -> bool {
    |p: InputView| p.1 == "password"@
}

/// Inputs into which text is typed.
pub open spec fn text_input() -> spec_fn(InputView) -> bool {
    |p: InputView| !is_textless(p.1)
}

/// Inputs into which text is typed and whose name hints at an account.
pub open spec fn account_input() -> spec_fn(InputView) -> bool {
    |p: InputView| !is_textless(p.1) && hints_account(p.0)
}

/// The name of the input at a position.
pub open spec fn name_at(inputs: Seq<InputView>, i: Option<int>) -> Option<Seq<char>> {
    match i {
        Some(k) => Some(inputs[k].0),
        None => None,
    }
}

/// The name of the password field: that of the first password input.
pub open spec fn password_field(inputs: Seq<InputView>) -> Option<Seq<char>> {
    name_at(inputs, first_where(inputs, password_input(), 0))
}

/// The name of the account field: that of the nearest text input before the password;
/// where there is none, that of the first text input whose name hints at an account.
pub open spec fn account_field(inputs: Seq<InputView>) -> Option<Seq<char>> {
    let nearest = match first_where(inputs, password_input(), 0) {
        Some(k) => last_where(inputs, text_input(), k),
        None => None,
    };
    match nearest {
        Some(k) => Some(inputs[k].0),
        None => name_at(inputs, first_where(inputs, account_input(), 0)),
    }
}

/// Whether text is typed into inputs of this type.
fn takes_text(typ: &str) -> (r: bool)
    ensures
        r == !is_textless(typ@),
{
    !(same_text(typ, "hidden") || same_text(typ, "submit") || same_text(typ, "button") || same_text(
        typ,
        "reset",
    ) || same_text(typ, "image") || same_text(typ, "checkbox") || same_text(typ, "radio")
        || same_text(typ, "file"))
}

/// Whether the name hints at an account.
fn hints_at_account(name: &str) -> (r: bool)
    ensures
        r == hints_account(name@),
{
    let small = lower_chars(&chars_of(name));
    contains_text(&small, &chars_of("user")) || contains_text(&small, &chars_of("account"))
        || contains_text(&small, &chars_of("login")) || contains_text(&small, &chars_of("name"))
        || contains_text(&small, &chars_of("id"))
}

/// The position of the first password input.
fn password_position(inputs: &[(String, String, String)]) -> (r: Option<usize>)
    ensures
        match r {
            Some(i) => first_where(inputs_view(inputs@), password_input(), 0) == Some(i as int) && i
                < inputs@.len(),
            None => first_where(inputs_view(inputs@), password_input(), 0) is None,
        },
{
    let mut i: usize = 0;
    while i < inputs.len()
        invariant
            i <= inputs@.len(),
            first_where(inputs_view(inputs@), password_input(), 0) == first_where(
                inputs_view(inputs@),
                password_input(),
                i as int,
            ),
        decreases inputs@.len() - i,
    {
        assert(inputs_view(inputs@)[i as int] == input_view(inputs@[i as int]));
        if same_text(&inputs[i].1, "password") {
            return Some(i);
        }
        i += 1;
    }
    None
}

/// The position of the nearest text input before `before`.
fn text_position_before(inputs: &[(String, String, String)], before: usize) -> (r: Option<usize>)
    requires
        before <= inputs@.len(),
    ensures
        match r {
            Some(i) => last_where(inputs_view(inputs@), text_input(), before as int) == Some(
                i as int,
            ) && i < inputs@.len(),
            None => last_where(inputs_view(inputs@), text_input(), before as int) is None,
        },
{
    let mut i: usize = before;
    while i > 0
        invariant
            i <= before <= inputs@.len(),
            last_where(inputs_view(inputs@), text_input(), before as int) == last_where(
                inputs_view(inputs@),
                text_input(),
                i as int,
            ),
        decreases i,
    {
        assert(inputs_view(inputs@)[i - 1] == input_view(inputs@[i - 1]));
        if takes_text(&inputs[i - 1].1) {
            return Some(i - 1);
        }
        i -= 1;
    }
    None
}

/// The position of the first text input whose name hints at an account.
fn account_position(inputs: &[(String, String, String)]) -> (r: Option<usize>)
    ensures
        match r {
            Some(i) => first_where(inputs_view(inputs@), account_input(), 0) == Some(i as int) && i
                < inputs@.len(),
            None => first_where(inputs_view(inputs@), account_input(), 0) is None,
        },
{
    let mut i: usize = 0;
    while i < inputs.len()
        invariant
            i <= inputs@.len(),
            first_where(inputs_view(inputs@), account_input(), 0) == first_where(
                inputs_view(inputs@),
                account_input(),
                i as int,
            ),
        decreases inputs@.len() - i,
    {
        assert(inputs_view(inputs@)[i as int] == input_view(inputs@[i as int]));
        if takes_text(&inputs[i].1) && hints_at_account(&inputs[i].0) {
            return Some(i);
        }
        i += 1;
    }
    None
}

/// The names of the account field and of the password field of a form, as far as its
/// inputs tell: the password is the first input of that type; the account is the nearest
/// text input before it, or else the first text input whose name hints at an account.
pub fn detect_credential_fields(inputs: &[(String, String, String)]) -> (r: (
    Option<String>,
    Option<String>,
))
    ensures
        opt_text(r.0) == account_field(inputs_view(inputs@)),
        opt_text(r.1) == password_field(inputs_view(inputs@)),
{
    let ghost views = inputs_view(inputs@);
    assert(forall|k: int|
        0 <= k < inputs@.len() ==> #[trigger] views[k] == input_view(inputs@[k]));
    let pass_at = password_position(inputs);
    let pass = match pass_at {
        Some(i) => Some(inputs[i].0.clone()),
        None => None,
    };
    let nearest = match pass_at {
        Some(i) => text_position_before(inputs, i),
        None => None,
    };
    let user_at = match nearest {
        Some(i) => Some(i),
        None => account_position(inputs),
    };
    let user = match user_at {
        Some(i) => Some(inputs[i].0.clone()),
        None => None,
    };
    (user, pass)
}

/// Tags of password inputs, whether or not they are submitted.
pub open spec fn password_tag() -> spec_fn(Seq<char>) -> bool {
    |t: Seq<char>| last_value(attrs(t), "type"@) matches Some(typ) && lower(typ) == "password"@
}

/// A page holds an input for a password.
pub open spec fn holds_password_input(html: Seq<char>) -> bool {
    exists|k: int| 0 <= k < input_tags(html).len() && password_tag()(#[trigger] input_tags(html)[k])
}

/// Whether a page holds an input for a password.
pub fn has_password_input(html: &str) -> (r: bool)
    ensures
        r == holds_password_input(html@),
{
    let tags = find_input_tags(html);
    let mut i: usize = 0;
    while i < tags.len()
        invariant
            i <= tags@.len(),
            tag_texts(tags@) == input_tags(html@),
            forall|k: int| 0 <= k < i ==> !password_tag()(#[trigger] input_tags(html@)[k]),
        decreases tags@.len() - i,
    {
        assert(tag_texts(tags@)[i as int] == tags@[i as int]@);
        if let Some(typ) = value_of(&split_attrs(&tags[i]), "type") {
            if same_text(&lower_text(&typ), "password") {
                assert(password_tag()(input_tags(html@)[i as int]));
                return true;
            }
        }
        i += 1;
    }
    false
}

// ---------------------------------------------------------------------------
// The message of a reply page
// ---------------------------------------------------------------------------

/// The tag is that of the message field of a reply page.
pub open spec fn holds_message(tag: Seq<char>) -> bool {
    ||| contains(lower(tag), "id=\"errmessage\""@)
    ||| contains(lower(tag), "id='errmessage'"@)
}

/// A message with the entities of the ampersand and the double quotation mark resolved.
pub open spec fn message_unescaped(s: Seq<char>) -> Seq<char> {
    replaced(replaced(s, "&amp;"@, "&"@), "&quot;"@, "\""@)
}

/// The message in a message field's tag: what stands between two equal quotation marks
/// behind the first `value=`, or nothing.
pub open spec fn tag_message(tag: Seq<char>) -> Seq<char> {
    match find_from(lower(tag), "value="@, 0) {
        None => Seq::empty(),
        Some(at) => {
            let rest = tag.skip(at + 6);
            if rest.len() > 0 && is_quote(rest[0]) {
                let end = first_stop(rest, 1, at_char(rest[0]));
                if end < rest.len() {
                    message_unescaped(rest.subrange(1, end))
                } else {
                    Seq::empty()
                }
            } else {
                Seq::empty()
            }
        },
    }
}

/// Tags of message fields.
pub open spec fn message_tag() -> spec_fn(Seq<char>) -> bool {
    |t: Seq<char>| holds_message(t)
}

/// The message that a page carries: that of its first message field, or nothing.
pub open spec fn err_message(html: Seq<char>) -> Seq<char> {
    match first_where(input_tags(html), message_tag(), 0) {
        Some(i) => tag_message(input_tags(html)[i]),
        None => Seq::empty(),
    }
}

/// The message in a message field's tag.
fn message_of(tag: &[char]) -> (r: String)
    ensures
        r@ == tag_message(tag@),
{
    proof {
        reveal_strlit("value=");
        reveal_strlit("&amp;");
        reveal_strlit("&quot;");
    }
    let small = lower_chars(tag);
    let key = chars_of("value=");
    assert(key@.len() == 6);
    match find(&small, &key, 0) {
        None => String::new(),
        Some(at) => {
            assert(small@.len() == tag.len());
            let rest = &tag[at + 6..tag.len()];
            assert(rest@ == tag@.skip(at + 6));
            if rest.len() > 0 && (rest[0] == '"' || rest[0] == '\'') {
                let end = scan_to_char(rest, 1, rest[0]);
                if end < rest.len() {
                    let a = replace(&rest[1..end], &chars_of("&amp;"), &chars_of("&"));
                    let b = replace(&a, &chars_of("&quot;"), &chars_of("\""));
                    return text_of(&b);
                }
            }
            String::new()
        },
    }
}

/// The message that a reply page carries in its hidden field `errMessage`, or nothing.
pub fn extract_err_message(html: &str) -> (r: String)
    ensures
        r@ == err_message(html@),
{
    let tags = find_input_tags(html);
    let double = chars_of("id=\"errmessage\"");
    let single = chars_of("id='errmessage'");
    let mut i: usize = 0;
    while i < tags.len()
        invariant
            i <= tags@.len(),
            tag_texts(tags@) == input_tags(html@),
            double@ == "id=\"errmessage\""@,
            single@ == "id='errmessage'"@,
            first_where(input_tags(html@), message_tag(), 0) == first_where(
                input_tags(html@),
                message_tag(),
                i as int,
            ),
        decreases tags@.len() - i,
    {
        assert(tag_texts(tags@)[i as int] == tags@[i as int]@);
        let small = lower_chars(&tags[i]);
        if contains_text(&small, &double) || contains_text(&small, &single) {
            return message_of(&tags[i]);
        }
        i += 1;
    }
    String::new()
}

// ---------------------------------------------------------------------------
// Laws
// ---------------------------------------------------------------------------

/// Attributes as a page writes them: a space, the name, and the value between quotation
/// marks.
pub open spec fn written(list: Seq<(Seq<char>, Seq<char>)>) -> Seq<char>
    decreases list.len(),
{
    if list.len() == 0 {
        Seq::empty()
    } else {
        " "@ + list[0].0 + "=\""@ + list[0].1 + "\""@ + written(list.skip(1))
    }
}

/// A name that can stand before an equals sign, and on its own.
pub open spec fn is_name(name: Seq<char>) -> bool {
    name.len() > 0 && forall|i: int| 0 <= i < name.len() ==> !at_name_end()(#[trigger] name[i])
}

/// Attributes that can be written: each has a name, and a value without the quotation mark.
pub open spec fn can_be_written(list: Seq<(Seq<char>, Seq<char>)>) -> bool {
    forall|k: int|
        0 <= k < list.len() ==> is_name((#[trigger] list[k]).0) && forall|i: int|
            0 <= i < list[k].1.len() ==> #[trigger] list[k].1[i] != '"'
}

/// Attributes with their names in small letters.
pub open spec fn with_small_names(list: Seq<(Seq<char>, Seq<char>)>) -> Seq<(Seq<char>, Seq<char>)> {
    list.map_values(|a: (Seq<char>, Seq<char>)| (lower(a.0), a.1))
}

/// A tag that ends in anything but a slash and white space, with those behind it, is open
/// up to there.
pub proof fn lemma_open_up_to(tag: Seq<char>, n: int)
    requires
        0 < n <= tag.len(),
        !is_closing(tag[n - 1]),
        forall|i: int| n <= i < tag.len() ==> is_closing(#[trigger] tag[i]),
    ensures
        open_len(tag) == n,
{
    lemma_open_len(tag);
    if open_len(tag) > n {
        assert(is_closing(tag[open_len(tag) - 1]));
    }
    if open_len(tag) < n {
        assert(is_closing(tag[n - 1]));
    }
}

/// A name that begins at a position is read there, up to where it ends.
pub proof fn lemma_name_is_read(tag: Seq<char>, from: int, start: int, name: Seq<char>)
    requires
        is_name(name),
        0 <= from <= start,
        start + name.len() <= open_len(tag),
        tag.subrange(start, start + name.len()) == name,
        forall|i: int| from <= i < start ==> !off_space()(#[trigger] tag[i]),
        start + name.len() < open_len(tag) ==> at_name_end()(tag[start + name.len()]),
    ensures
        first_stop(tag, from, off_space()) == start,
        first_stop(tag.take(open_len(tag)), start, at_name_end()) == start + name.len(),
{
    lemma_open_len(tag);
    let open = tag.take(open_len(tag));
    assert(forall|i: int|
        start <= i < start + name.len() ==> #[trigger] tag[i] == tag.subrange(
            start,
            start + name.len(),
        )[i - start]);
    lemma_first_stop(tag, from, off_space());
    lemma_first_stop(open, start, at_name_end());
    assert(!at_name_end()(name[0]));
    assert(tag[start] == name[0]);
    assert(off_space()(tag[start]));
    let end = first_stop(open, start, at_name_end());
    if end < start + name.len() {
        assert(open[end] == tag[end]);
        assert(!at_name_end()(name[end - start]));
    }
    if end > start + name.len() {
        assert(open[start + name.len()] == tag[start + name.len()]);
    }
}

/// Written attributes are read one after the other.
proof fn lemma_written_is_read(
    head: Seq<char>,
    list: Seq<(Seq<char>, Seq<char>)>,
    tail: Seq<char>,
)
    requires
        can_be_written(list),
        (head + written(list)).len() <= open_len(head + written(list) + tail),
    ensures
        attrs_from(head + written(list) + tail, head.len() as int) == with_small_names(list)
            + attrs_from(head + written(list) + tail, (head + written(list)).len() as int),
    decreases list.len(),
{
    let tag = head + written(list) + tail;
    if list.len() == 0 {
        assert((head + written(list)).len() == head.len());
        assert(with_small_names(list) + attrs_from(tag, head.len() as int) == attrs_from(
            tag,
            head.len() as int,
        ));
    } else {
        let (name, value) = list[0];
        let rest = list.skip(1);
        reveal_strlit(" ");
        reveal_strlit("=\"");
        reveal_strlit("\"");
        let one = " "@ + name + "=\""@ + value + "\""@;
        assert(written(list) == one + written(rest));
        assert(tag == (head + one) + written(rest) + tail);
        assert(forall|k: int| 0 <= k < rest.len() ==> #[trigger] rest[k] == list[k + 1]);
        lemma_written_is_read(head + one, rest, tail);
        let from = head.len() as int;
        let start = from + 1;
        let stop = start + name.len();
        assert(is_name(list[0].0));
        assert(tag.subrange(start, stop) == name);
        assert(tag[from] == ' ');
        assert(tag[stop] == '=');
        assert(tag[stop + 1] == '"');
        lemma_name_is_read(tag, from, start, name);
        let end = stop + 2 + value.len();
        assert(tag.subrange(stop + 2, end) == value);
        assert(tag[end] == '"');
        lemma_first_stop(tag, stop + 2, at_char('"'));
        let found = first_stop(tag, stop + 2, at_char('"'));
        if found < end {
            assert(tag[found] == tag.subrange(stop + 2, end)[found - stop - 2]);
            assert(list[0].1[found - stop - 2] != '"');
        }
        if found > end {
            assert(!at_char('"')(tag[end]));
        }
        assert(found == end);
        assert((head + one).len() == end + 1);
        lemma_open_len(tag);
        assert(end < open_len(tag));
        assert(tag.take(open_len(tag)).len() == open_len(tag));
        let after = attrs_from(tag, end + 1);
        assert(attrs_from(tag, from) == seq![(lower(name), value)] + after);
        assert((head + one + written(rest)).len() == (head + written(list)).len());
        let last = attrs_from(tag, (head + written(list)).len() as int);
        assert(with_small_names(list) =~= seq![(lower(name), value)] + with_small_names(rest));
        assert(seq![(lower(name), value)] + (with_small_names(rest) + last)
            == with_small_names(list) + last);
    }
}

/// Written attributes end with a quotation mark.
proof fn lemma_written_ends_open(list: Seq<(Seq<char>, Seq<char>)>)
    ensures
        list.len() > 0 ==> written(list).len() > 0 && written(list).last() == '"',
    decreases list.len(),
{
    if list.len() > 0 {
        reveal_strlit("\"");
        lemma_written_ends_open(list.skip(1));
        let one = " "@ + list[0].0 + "=\""@ + list[0].1 + "\""@;
        assert(written(list) == one + written(list.skip(1)));
        assert(one.last() == '"');
    }
}

/// The attributes of a tag that slashes close come back.
proof fn lemma_tag_comes_back(list: Seq<(Seq<char>, Seq<char>)>, close: Seq<char>)
    requires
        can_be_written(list),
        forall|i: int| 0 <= i < close.len() ==> #[trigger] close[i] == '/',
    ensures
        attrs("<input"@ + written(list) + close) == seq![("<input"@, Seq::<char>::empty())]
            + with_small_names(list),
{
    reveal_strlit("<input");
    let body = "<input"@ + written(list);
    let n = body.len() as int;
    let tag = body + close;
    lemma_written_ends_open(list);
    assert(tag[n - 1] == body.last());
    assert(body.last() == 't' || body.last() == '"');
    lemma_open_up_to(tag, n);
    lemma_opening_is_read(list, close);
    lemma_written_is_read("<input"@, list, close);
    assert(attrs_from(tag, n) == Seq::<(Seq<char>, Seq<char>)>::empty());
}

/// The attributes of a tag that slashes close come back, with a name on its own at the end.
proof fn lemma_tag_with_word_comes_back(
    list: Seq<(Seq<char>, Seq<char>)>,
    bare: Seq<char>,
    close: Seq<char>,
)
    requires
        can_be_written(list),
        is_name(bare),
        bare.last() != '/',
        forall|i: int| 0 <= i < close.len() ==> #[trigger] close[i] == '/',
    ensures
        attrs("<input"@ + written(list) + " "@ + bare + close) == seq![
            ("<input"@, Seq::<char>::empty()),
        ] + with_small_names(list) + seq![(lower(bare), Seq::<char>::empty())],
{
    reveal_strlit("<input");
    reveal_strlit(" ");
    let body = "<input"@ + written(list);
    let n = body.len() as int;
    let tail = " "@ + bare + close;
    let tag = body + tail;
    assert(tag == body + " "@ + bare + close);
    let end = n + 1 + bare.len();
    assert(tag[end - 1] == bare[bare.len() - 1]);
    assert(!at_name_end()(bare[bare.len() - 1]));
    lemma_open_up_to(tag, end);
    lemma_opening_is_read(list, tail);
    lemma_written_is_read("<input"@, list, tail);
    assert(tag.subrange(n + 1, end) == bare);
    assert(tag[n] == ' ');
    lemma_name_is_read(tag, n, n + 1, bare);
    assert(tag.take(end).len() == end);
    assert(attrs_from(tag, end) == Seq::<(Seq<char>, Seq<char>)>::empty());
    assert(attrs_from(tag, n) =~= seq![(lower(bare), Seq::<char>::empty())]);
    assert(attrs_from(tag, 6) == with_small_names(list) + attrs_from(tag, n));
    assert(attrs(tag) =~= seq![("<input"@, Seq::<char>::empty())] + with_small_names(list) + seq![
        (lower(bare), Seq::<char>::empty()),
    ]);
}

/// The opening of a tag is read first.
proof fn lemma_opening_is_read(list: Seq<(Seq<char>, Seq<char>)>, tail: Seq<char>)
    requires
        ({
            let body = "<input"@ + written(list);
            &&& body.len() <= open_len(body + tail)
            &&& list.len() == 0 && 6 < open_len(body + tail) ==> is_tag_space_spec(tail[0])
        }),
    ensures
        ({
            let tag = "<input"@ + written(list) + tail;
            attrs_from(tag, 0) == seq![("<input"@, Seq::<char>::empty())] + attrs_from(tag, 6)
        }),
{
    reveal_strlit("<input");
    reveal_strlit(" ");
    let tag = "<input"@ + written(list) + tail;
    lemma_open_len(tag);
    assert(lower("<input"@) == "<input"@);
    assert(tag.subrange(0, 6) == "<input"@);
    if list.len() > 0 {
        assert(written(list)[0] == ' ');
        assert(tag[6] == ' ');
    } else if 6 < open_len(tag) {
        assert(tag[6] == tail[0]);
    }
    lemma_name_is_read(tag, 0, 0, "<input"@);
    assert(tag.take(open_len(tag)).len() == open_len(tag));
}

/// The attributes of a tag come back as they are written, whether or not the tag ends with a
/// slash; so does a name that stands on its own at its end.
pub proof fn law_attributes_come_back(
    list: Seq<(Seq<char>, Seq<char>)>,
    bare: Seq<char>,
    slash: bool,
)
    requires
        can_be_written(list),
        is_name(bare),
        bare.last() != '/',
    ensures
        attrs("<input"@ + written(list) + " "@ + bare + (if slash {
            "/"@
        } else {
            Seq::empty()
        })) == seq![("<input"@, Seq::<char>::empty())] + with_small_names(list) + seq![
            (lower(bare), Seq::<char>::empty()),
        ],
        attrs("<input"@ + written(list) + (if slash {
            "/"@
        } else {
            Seq::empty()
        })) == seq![("<input"@, Seq::<char>::empty())] + with_small_names(list),
{
    let close: Seq<char> = if slash {
        "/"@
    } else {
        Seq::empty()
    };
    reveal_strlit("/");
    lemma_tag_comes_back(list, close);
    lemma_tag_with_word_comes_back(list, bare, close);
}

/// An input with the word `disabled` at its end is disabled, whether or not the tag ends
/// with a slash, and gives no field.
pub proof fn law_disabled_tag_gives_no_field(
    list: Seq<(Seq<char>, Seq<char>)>,
    word: Seq<char>,
    slash: bool,
)
    requires
        can_be_written(list),
        lower(word) == "disabled"@,
    ensures
        tag_field("<input"@ + written(list) + " "@ + word + (if slash {
            "/"@
        } else {
            Seq::empty()
        })) is None,
{
    reveal_strlit("disabled");
    assert(word.len() == 8) by {
        assert(lower(word).len() == word.len());
    }
    assert forall|i: int| 0 <= i < 8 implies 'a' <= #[trigger] lower(word)[i] by {
        assert(i == 0 || i == 1 || i == 2 || i == 3 || i == 4 || i == 5 || i == 6 || i == 7);
    }
    assert forall|i: int| 0 <= i < 8 implies !at_name_end()(#[trigger] word[i]) && word[i]
        != '/' by {
        assert(lower(word)[i] == lower_char_spec(word[i]));
    }
    law_attributes_come_back(list, word, slash);
}

/// A disabled input is not submitted: every field of a page is that of a tag which is not
/// disabled and has the field's name.
pub proof fn law_disabled_inputs_are_left_out(html: Seq<char>, i: int)
    requires
        0 <= i < form_fields(html).len(),
    ensures
        exists|k: int|
            0 <= k < input_tags(html).len() && !is_disabled(#[trigger] input_tags(html)[k])
                && last_value(attrs(input_tags(html)[k]), "name"@) == Some(form_fields(html)[i].0),
{
    let found = input_tags(html).map_values(|t: Seq<char>| tag_field(t));
    let k = lemma_somes(found, i);
    assert(found[k] == tag_field(input_tags(html)[k]));
    assert(!is_disabled(input_tags(html)[k]));
}

/// A field for the password is found only on a page that holds an input for one.
pub proof fn lemma_password_field_has_a_tag(html: Seq<char>)
    requires
        password_field(form_inputs(html)) is Some,
    ensures
        holds_password_input(html),
{
    let inputs = form_inputs(html);
    lemma_first_where(inputs, password_input(), 0);
    let i = first_where(inputs, password_input(), 0)->0;
    assert(password_input()(inputs[i]));
    let found = input_tags(html).map_values(|t: Seq<char>| tag_input(t));
    let k = lemma_somes(found, i);
    assert(found[k] == tag_input(input_tags(html)[k]));
    reveal_strlit("text");
    reveal_strlit("password");
    assert("text"@.len() != "password"@.len());
    assert(password_tag()(input_tags(html)[k]));
}

/// The password goes into the first password input, and only where a page has one is a
/// field found for it.
pub proof fn law_password_goes_into_a_password_input(inputs: Seq<InputView>)
    ensures
        match password_field(inputs) {
            Some(name) => exists|k: int|
                0 <= k < inputs.len() && (#[trigger] inputs[k]).0 == name && inputs[k].1
                    == "password"@ && forall|j: int|
                    0 <= j < k ==> (#[trigger] inputs[j]).1 != "password"@,
            None => forall|k: int| 0 <= k < inputs.len() ==> (#[trigger] inputs[k]).1 != "password"@,
        },
{
    lemma_first_where(inputs, password_input(), 0);
    match first_where(inputs, password_input(), 0) {
        Some(k) => {
            assert(password_input()(inputs[k]));
            assert forall|j: int| 0 <= j < k implies (#[trigger] inputs[j]).1 != "password"@ by {
                assert(!password_input()(inputs[j]));
            }
        },
        None => {
            assert forall|k: int| 0 <= k < inputs.len() implies (#[trigger] inputs[k]).1
                != "password"@ by {
                assert(!password_input()(inputs[k]));
            }
        },
    }
}

/// The account goes into the nearest text input before the password, where there is one.
pub proof fn law_account_stands_before_the_password(inputs: Seq<InputView>, k: int, p: int)
    requires
        0 <= k < p < inputs.len(),
        !is_textless(inputs[k].1),
        inputs[p].1 == "password"@,
        forall|j: int| 0 <= j < p ==> (#[trigger] inputs[j]).1 != "password"@,
        forall|j: int| k < j < p ==> is_textless((#[trigger] inputs[j]).1),
    ensures
        account_field(inputs) == Some(inputs[k].0),
{
    lemma_first_where(inputs, password_input(), 0);
    assert(password_input()(inputs[p]));
    let first = first_where(inputs, password_input(), 0)->0;
    assert(first == p) by {
        if first < p {
            assert(password_input()(inputs[first]));
        }
    }
    lemma_last_where(inputs, text_input(), p);
    assert(text_input()(inputs[k]));
    let last = last_where(inputs, text_input(), p)->0;
    if last > k {
        assert(text_input()(inputs[last]));
    }
}

/// The tags of a page, from a position in its second part on, are those of that part.
proof fn lemma_tags_of_second_part(a: Seq<char>, b: Seq<char>, k: int)
    requires
        0 <= k <= b.len(),
    ensures
        input_tags_from(a + b, a.len() + k) == input_tags_from(b, k),
    decreases b.len() - k,
{
    let (page, pat) = (a + b, "<input"@);
    assert(lower(page) == lower(a) + lower(b));
    lemma_find_behind(lower(a), lower(b), pat, k);
    lemma_find_from(lower(b), pat, k);
    if let Some(s) = find_from(lower(b), pat, k) {
        lemma_first_stop_behind(a, b, s, at_char('>'));
        lemma_first_stop(b, s, at_char('>'));
        let end = first_stop(b, s, at_char('>'));
        if end < b.len() {
            assert(page.subrange(a.len() + s, a.len() + end) == b.subrange(s, end));
            lemma_tags_of_second_part(a, b, end + 1);
        }
    }
}

/// The tags of a page whose first part ends with `>` are those of the one part and then
/// those of the other.
proof fn lemma_tags_of_parts(a: Seq<char>, b: Seq<char>, from: int)
    requires
        a.len() > 0,
        a.last() == '>',
        0 <= from <= a.len(),
    ensures
        input_tags_from(a + b, from) == input_tags_from(a, from) + input_tags(b),
    decreases a.len() - from,
{
    let (page, n, pat) = (a + b, a.len() as int, "<input"@);
    let (small, part) = (lower(page), lower(a));
    reveal_strlit("<input");
    lemma_find_from(small, pat, from);
    lemma_find_from(part, pat, from);
    assert forall|j: int| 0 <= j < n implies occurs_at(part, pat, j) == #[trigger] occurs_at(
        small,
        pat,
        j,
    ) by {
        if j + 6 <= n {
            assert(small.subrange(j, j + 6) == part.subrange(j, j + 6));
        } else if j + 6 <= page.len() {
            assert(small.subrange(j, j + 6)[n - 1 - j] == '>');
            assert(pat[n - 1 - j] != '>');
        }
    }
    match find_from(part, pat, from) {
        None => {
            lemma_find_from(small, pat, n);
            match find_from(small, pat, from) {
                None => {
                    if let Some(i) = find_from(small, pat, n) {
                        assert(occurs_at(small, pat, i));
                    }
                },
                Some(i) => {
                    assert(i >= n) by {
                        if i < n {
                            assert(occurs_at(part, pat, i));
                        }
                    }
                    let m = find_from(small, pat, n)->0;
                    assert(occurs_at(small, pat, i));
                    assert(occurs_at(small, pat, m));
                    assert(m == i);
                },
            }
            assert(input_tags_from(page, from) == input_tags_from(page, n));
            lemma_tags_of_second_part(a, b, 0);
            assert(input_tags_from(a, from) + input_tags(b) == input_tags(b));
        },
        Some(s) => {
            assert(occurs_at(small, pat, s));
            let i = find_from(small, pat, from)->0;
            assert(i <= s);
            assert(occurs_at(small, pat, i));
            assert(occurs_at(part, pat, i));
            assert(i == s);
            lemma_first_stop(page, s, at_char('>'));
            lemma_first_stop(a, s, at_char('>'));
            let (e, f) = (first_stop(page, s, at_char('>')), first_stop(a, s, at_char('>')));
            assert(at_char('>')(a[n - 1]));
            assert(f < n);
            assert(forall|j: int| 0 <= j < n ==> #[trigger] a[j] == page[j]);
            if e < f {
                assert(!at_char('>')(a[e]));
            }
            if f < e {
                assert(!at_char('>')(page[f]));
            }
            assert(page.subrange(s, e) == a.subrange(s, f));
            lemma_tags_of_parts(a, b, f + 1);
            assert(seq![a.subrange(s, f)] + (input_tags_from(a, f + 1) + input_tags(b)) == seq![
                a.subrange(s, f),
            ] + input_tags_from(a, f + 1) + input_tags(b));
        },
    }
}

/// What a page submits is what each of its parts does, one after the other, where the first
/// part ends with a whole tag.
pub proof fn law_parts_submit_one_after_the_other(a: Seq<char>, b: Seq<char>)
    requires
        a.len() > 0,
        a.last() == '>',
    ensures
        form_fields(a + b) == form_fields(a) + form_fields(b),
        form_inputs(a + b) == form_inputs(a) + form_inputs(b),
{
    lemma_tags_of_parts(a, b, 0);
    let (s, t) = (input_tags(a), input_tags(b));
    let field = |t: Seq<char>| tag_field(t);
    let input = |t: Seq<char>| tag_input(t);
    assert((s + t).map_values(field) == s.map_values(field) + t.map_values(field));
    assert((s + t).map_values(input) == s.map_values(input) + t.map_values(input));
    lemma_somes_parts(s.map_values(field), t.map_values(field));
    lemma_somes_parts(s.map_values(input), t.map_values(input));
}

/// An input without its type.
pub open spec fn without_type() -> spec_fn(InputView) -> (Seq<char>, Seq<char>) {
    |p: InputView| (p.0, p.2)
}

/// Fields that have a name.
pub open spec fn has_name() -> spec_fn((Seq<char>, Seq<char>)) -> bool {
    |f: (Seq<char>, Seq<char>)| f.0.len() > 0
}

/// The named fields of tags are the inputs of the same tags.
proof fn lemma_inputs_are_the_named_fields(tags: Seq<Seq<char>>)
    ensures
        somes(tags.map_values(|t: Seq<char>| tag_input(t))).map_values(without_type()) == somes(
            tags.map_values(|t: Seq<char>| tag_field(t)),
        ).filter(has_name()),
    decreases tags.len(),
{
    let field = |t: Seq<char>| tag_field(t);
    let input = |t: Seq<char>| tag_input(t);
    let (fields, inputs) = (tags.map_values(field), tags.map_values(input));
    reveal(Seq::filter);
    if tags.len() == 0 {
        assert(somes(inputs).map_values(without_type()) == somes(fields).filter(has_name()));
    } else {
        let less = tags.drop_last();
        lemma_inputs_are_the_named_fields(less);
        assert(fields.drop_last() == less.map_values(field));
        assert(inputs.drop_last() == less.map_values(input));
        let (f, i) = (somes(fields.drop_last()), somes(inputs.drop_last()));
        match tag_field(tags.last()) {
            None => {},
            Some(p) => {
                assert(f.push(p).drop_last() == f);
                if p.0.len() > 0 {
                    let q = tag_input(tags.last())->0;
                    assert(i.push(q).map_values(without_type()) == i.map_values(
                        without_type(),
                    ).push(p));
                }
            },
        }
    }
}

/// The inputs of a page are those of its fields that have a name, in the same order, with
/// the type added.
pub proof fn law_inputs_are_the_named_fields(html: Seq<char>)
    ensures
        form_inputs(html).map_values(without_type()) == form_fields(html).filter(has_name()),
{
    lemma_inputs_are_the_named_fields(input_tags(html));
}

} // verus!
