//! What a login page says: the fields it submits, where the credentials go, and its message.
use vstd::prelude::*;
use crate::laws::text::{
    is_free_of, lacks, law_contained_or_free, law_first_is_replaced, law_nothing_to_replace,
    law_small_letters, lemma_found_behind,
};
use crate::page::{
    account_field, account_input, at_name_end, at_space, attrs, attrs_from, can_be_written,
    err_message, form_fields, form_inputs, hints_account, holds_message, input_tags,
    input_tags_from, is_closing, is_name, last_value, law_attributes_come_back, lemma_name_is_read,
    lemma_open_len, lemma_open_up_to, message_tag, message_unescaped, off_space, open_len,
    password_field, password_input, tag_field, tag_input, tag_message, text_input, unescaped,
    with_small_names, written, InputView,
};
use crate::text::{
    at_char, find_from, first_stop, first_where, last_where, lemma_find_from, lemma_first_stop,
    lemma_first_where, lemma_last_where, lower, occurs_at, replaced, somes,
};

verus! {

// ---------------------------------------------------------------------------
// Fields
// ---------------------------------------------------------------------------

/// The attribute at a position is the last with a name, in letters of either case.
pub open spec fn is_last_named(list: Seq<(Seq<char>, Seq<char>)>, k: int, name: Seq<char>) -> bool {
    &&& 0 <= k < list.len()
    &&& lower(list[k].0) == name
    &&& forall|j: int| k < j < list.len() ==> lower((#[trigger] list[j]).0) != name
}

/// No attribute has a name, in letters of either case.
pub open spec fn none_named(list: Seq<(Seq<char>, Seq<char>)>, name: Seq<char>) -> bool {
    forall|j: int| 0 <= j < list.len() ==> lower((#[trigger] list[j]).0) != name
}

/// An input as a page writes it, without the sign that ends it.
pub open spec fn input_written(list: Seq<(Seq<char>, Seq<char>)>, slash: bool) -> Seq<char> {
    "<input"@ + written(list) + (if slash {
        "/"@
    } else {
        Seq::empty()
    })
}

/// The value of the last attribute with a name is found.
proof fn lemma_last_value(s: Seq<(Seq<char>, Seq<char>)>, k: int, key: Seq<char>)
    requires
        0 <= k < s.len(),
        s[k].0 == key,
        forall|j: int| k < j < s.len() ==> (#[trigger] s[j]).0 != key,
    ensures
        last_value(s, key) == Some(s[k].1),
    decreases s.len(),
{
    if k < s.len() - 1 {
        assert(s[s.len() - 1].0 != key);
        let t = s.drop_last();
        assert(forall|j: int| 0 <= j < t.len() ==> #[trigger] t[j] == s[j]);
        lemma_last_value(t, k, key);
    }
}

/// A name that no attribute has is not found.
proof fn lemma_no_value(s: Seq<(Seq<char>, Seq<char>)>, key: Seq<char>)
    requires
        forall|j: int| 0 <= j < s.len() ==> (#[trigger] s[j]).0 != key,
    ensures
        last_value(s, key) is None,
    decreases s.len(),
{
    if s.len() > 0 {
        assert(s[s.len() - 1].0 != key);
        let t = s.drop_last();
        assert(forall|j: int| 0 <= j < t.len() ==> #[trigger] t[j] == s[j]);
        lemma_no_value(t, key);
    }
}

/// What an input that is written says of a name.
proof fn lemma_written_value(
    list: Seq<(Seq<char>, Seq<char>)>,
    slash: bool,
    k: int,
    key: Seq<char>,
)
    requires
        can_be_written(list),
        key.len() > 0,
        key[0] != '<',
    ensures
        is_last_named(list, k, key) ==> last_value(attrs(input_written(list, slash)), key) == Some(
            list[k].1,
        ),
        none_named(list, key) ==> last_value(attrs(input_written(list, slash)), key) is None,
{
    reveal_strlit("<input");
    assert("<input"@[0] == '<');
    let word = seq!['x'];
    assert(is_name(word)) by {
        assert(word[0] == 'x');
    }
    law_attributes_come_back(list, word, slash);
    let all = seq![("<input"@, Seq::<char>::empty())] + with_small_names(list);
    assert(attrs(input_written(list, slash)) == all);
    assert(all[0].0 != key);
    assert(forall|j: int|
        1 <= j < all.len() ==> (#[trigger] all[j]) == (lower(list[j - 1].0), list[j - 1].1));
    if is_last_named(list, k, key) {
        lemma_last_value(all, k + 1, key);
    }
    if none_named(list, key) {
        lemma_no_value(all, key);
    }
}

/// An input submits its value under its name, each as the page writes it but for the
/// entities in the value, wherever they stand among its attributes and in whatever case
/// those are named. Without a value it submits an empty one, and without a name nothing.
pub proof fn law_input_submits_its_value(
    list: Seq<(Seq<char>, Seq<char>)>,
    slash: bool,
    n: int,
    v: int,
)
    requires
        can_be_written(list),
        none_named(list, "disabled"@),
    ensures
        is_last_named(list, n, "name"@) && is_last_named(list, v, "value"@) ==> tag_field(
            input_written(list, slash),
        ) == Some((list[n].1, unescaped(list[v].1))),
        is_last_named(list, n, "name"@) && is_last_named(list, v, "value"@) && lacks(
            list[v].1,
            '&',
        ) ==> tag_field(input_written(list, slash)) == Some(list_pair(list, n, v)),
        is_last_named(list, n, "name"@) && none_named(list, "value"@) ==> tag_field(
            input_written(list, slash),
        ) == Some((list[n].1, Seq::<char>::empty())),
        none_named(list, "name"@) ==> tag_field(input_written(list, slash)) is None,
{
    reveal_strlit("disabled");
    reveal_strlit("name");
    reveal_strlit("value");
    lemma_written_value(list, slash, n, "disabled"@);
    lemma_written_value(list, slash, n, "name"@);
    lemma_written_value(list, slash, v, "value"@);
    if is_last_named(list, v, "value"@) && lacks(list[v].1, '&') {
        law_plain_value_stays(list[v].1);
    }
    let none = Seq::<char>::empty();
    law_plain_value_stays(none);
}

/// The values of two attributes.
pub open spec fn list_pair(list: Seq<(Seq<char>, Seq<char>)>, n: int, v: int) -> (
    Seq<char>,
    Seq<char>,
) {
    (list[n].1, list[v].1)
}

/// An input that is disabled, in letters of either case, submits nothing.
pub proof fn law_disabled_input_submits_nothing(
    list: Seq<(Seq<char>, Seq<char>)>,
    slash: bool,
    k: int,
)
    requires
        can_be_written(list),
        is_last_named(list, k, "disabled"@),
    ensures
        tag_field(input_written(list, slash)) is None,
        tag_input(input_written(list, slash)) is None,
{
    reveal_strlit("disabled");
    lemma_written_value(list, slash, k, "disabled"@);
}

/// An input has the type that is written, in small letters, and is a text input where none
/// is.
pub proof fn law_input_has_its_type(
    list: Seq<(Seq<char>, Seq<char>)>,
    slash: bool,
    n: int,
    v: int,
    t: int,
)
    requires
        can_be_written(list),
        none_named(list, "disabled"@),
        is_last_named(list, n, "name"@),
        is_last_named(list, v, "value"@),
        list[n].1.len() > 0,
        lacks(list[v].1, '&'),
    ensures
        is_last_named(list, t, "type"@) ==> tag_input(input_written(list, slash)) == Some(
            (list[n].1, lower(list[t].1), list[v].1),
        ),
        none_named(list, "type"@) ==> tag_input(input_written(list, slash)) == Some(
            (list[n].1, "text"@, list[v].1),
        ),
{
    reveal_strlit("type");
    law_input_submits_its_value(list, slash, n, v);
    lemma_written_value(list, slash, t, "type"@);
}

/// A pattern that begins with a character stands nowhere in a text without it.
proof fn lemma_free_without_first(s: Seq<char>, pat: Seq<char>)
    requires
        pat.len() > 0,
        lacks(s, pat[0]),
    ensures
        is_free_of(s, pat),
{
    assert forall|a: Seq<char>, b: Seq<char>| s != #[trigger] (a + pat + b) by {
        if s == a + pat + b {
            assert(s[a.len() as int] == pat[0]);
        }
    }
}

/// A value without an ampersand is submitted as it is written.
pub proof fn law_plain_value_stays(value: Seq<char>)
    requires
        lacks(value, '&'),
    ensures
        unescaped(value) == value,
        message_unescaped(value) == value,
{
    reveal_strlit("&amp;");
    reveal_strlit("&quot;");
    reveal_strlit("&#39;");
    lemma_free_without_first(value, "&amp;"@);
    lemma_free_without_first(value, "&quot;"@);
    lemma_free_without_first(value, "&#39;"@);
    law_nothing_to_replace(value, "&amp;"@, "&"@);
    law_nothing_to_replace(value, "&quot;"@, "\""@);
    law_nothing_to_replace(value, "&#39;"@, "'"@);
}

/// One replacement, where nothing else of the pattern stands around it.
proof fn lemma_one_replaced(x: Seq<char>, pat: Seq<char>, y: Seq<char>, with: Seq<char>)
    requires
        pat.len() > 0,
        lacks(x, pat[0]),
        lacks(y, pat[0]),
    ensures
        replaced(x + pat + y, pat, with) == x + with + y,
{
    let s = x + pat + y;
    assert forall|i: int| 0 <= i < x.len() implies !#[trigger] occurs_at(s, pat, i) by {
        if occurs_at(s, pat, i) {
            assert(s.subrange(i, i + pat.len())[0] == pat[0]);
            assert(s[i] == x[i]);
        }
    }
    law_first_is_replaced(x, pat, y, with);
    lemma_free_without_first(y, pat);
    law_nothing_to_replace(y, pat, with);
}

/// A text whose only ampersand does not begin a pattern is free of the pattern.
proof fn lemma_free_at_ampersand(x: Seq<char>, z: Seq<char>, pat: Seq<char>)
    requires
        pat.len() > 0,
        pat[0] == '&',
        lacks(x, '&'),
        z.len() > 0,
        z[0] == '&',
        lacks(z.skip(1), '&'),
        z.len() < pat.len() || z.take(pat.len() as int) != pat,
    ensures
        is_free_of(x + z, pat),
{
    let s = x + z;
    assert forall|a: Seq<char>, b: Seq<char>| s != #[trigger] (a + pat + b) by {
        if s == a + pat + b {
            let k = a.len() as int;
            let t = a + pat + b;
            assert(t[k] == pat[0]);
            assert(t.len() == s.len());
            assert(s[k] == '&');
            if k < x.len() {
                assert(s[k] == x[k]);
            } else if k > x.len() {
                let j = k - x.len() - 1;
                assert(z.skip(1)[j] == z[j + 1]);
                assert(s[k] == z[j + 1]);
            } else {
                assert(z == pat + b) by {
                    assert(s.skip(k) == z);
                    assert((a + pat + b).skip(k) == pat + b);
                }
                assert(z.take(pat.len() as int) == pat);
            }
        }
    }
}

/// The entities of the ampersand, the quotation mark and the apostrophe stand for those
/// characters; what stands around them stays.
pub proof fn law_entities_are_resolved(x: Seq<char>, y: Seq<char>)
    requires
        lacks(x, '&'),
        lacks(y, '&'),
    ensures
        lacks(y, ';') ==> unescaped(x + "&amp;"@ + y) == x + "&"@ + y,
        unescaped(x + "&quot;"@ + y) == x + "\""@ + y,
        unescaped(x + "&#39;"@ + y) == x + "'"@ + y,
        lacks(y, ';') ==> message_unescaped(x + "&amp;"@ + y) == x + "&"@ + y,
        message_unescaped(x + "&quot;"@ + y) == x + "\""@ + y,
{
    reveal_strlit("&amp;");
    reveal_strlit("&quot;");
    reveal_strlit("&#39;");
    reveal_strlit("&");
    reveal_strlit("\"");
    reveal_strlit("'");
    let (amp, quot, apos) = ("&amp;"@, "&quot;"@, "&#39;"@);
    // The ampersand.
    if lacks(y, ';') {
        lemma_one_replaced(x, amp, y, "&"@);
        let z = "&"@ + y;
        assert(x + "&"@ + y == x + z);
        assert(z.skip(1) == y);
        if z.len() >= 6 && z.take(6) == quot {
            assert(z.take(6)[5] == ';');
            assert(z[5] == y[4]);
        }
        if z.len() >= 5 && z.take(5) == apos {
            assert(z.take(5)[4] == ';');
            assert(z[4] == y[3]);
        }
        lemma_free_at_ampersand(x, z, quot);
        lemma_free_at_ampersand(x, z, apos);
        law_nothing_to_replace(x + z, quot, "\""@);
        law_nothing_to_replace(x + z, apos, "'"@);
    }
    // The quotation mark.
    let q = quot + y;
    assert(x + quot + y == x + q);
    assert(q.skip(1) == quot.skip(1) + y);
    assert(lacks(q.skip(1), '&')) by {
        assert forall|i: int| 0 <= i < q.skip(1).len() implies #[trigger] q.skip(1)[i] != '&' by {
            if i < 5 {
                assert(q.skip(1)[i] == quot[i + 1]);
            } else {
                assert(q.skip(1)[i] == y[i - 5]);
            }
        }
    }
    assert(q.take(5)[1] == 'q');
    assert(amp[1] == 'a');
    lemma_free_at_ampersand(x, q, amp);
    law_nothing_to_replace(x + q, amp, "&"@);
    lemma_one_replaced(x, quot, y, "\""@);
    let after = x + "\""@ + y;
    assert(lacks(after, '&')) by {
        assert forall|i: int| 0 <= i < after.len() implies #[trigger] after[i] != '&' by {
            if i < x.len() {
                assert(after[i] == x[i]);
            } else if i > x.len() {
                assert(after[i] == y[i - x.len() - 1]);
            }
        }
    }
    lemma_free_without_first(after, apos);
    law_nothing_to_replace(after, apos, "'"@);
    // The apostrophe.
    let p = apos + y;
    assert(x + apos + y == x + p);
    assert(lacks(p.skip(1), '&')) by {
        assert forall|i: int| 0 <= i < p.skip(1).len() implies #[trigger] p.skip(1)[i] != '&' by {
            if i < 4 {
                assert(p.skip(1)[i] == apos[i + 1]);
            } else {
                assert(p.skip(1)[i] == y[i - 4]);
            }
        }
    }
    assert(p[1] == '#');
    if p.len() >= 6 {
        assert(p.take(6)[1] == '#');
    }
    assert(p.take(5)[1] == '#');
    assert(quot[1] == 'q');
    lemma_free_at_ampersand(x, p, amp);
    lemma_free_at_ampersand(x, p, quot);
    law_nothing_to_replace(x + p, amp, "&"@);
    law_nothing_to_replace(x + p, quot, "\""@);
    lemma_one_replaced(x, apos, y, "'"@);
}

// ---------------------------------------------------------------------------
// Attributes
// ---------------------------------------------------------------------------

/// How a value is written: between quotation marks of either kind, or without.
pub enum Quotes {
    Double,
    Single,
    Without,
}

/// An attribute: its name, its value, and how the value is written.
pub type Attribute = (Seq<char>, Seq<char>, Quotes);

/// The sign around a value.
pub open spec fn quote_of(q: Quotes) -> Seq<char> {
    match q {
        Quotes::Double => seq!['"'],
        Quotes::Single => seq!['\''],
        Quotes::Without => Seq::empty(),
    }
}

/// An attribute as it is written.
pub open spec fn attribute_written(a: Attribute) -> Seq<char> {
    seq![' '] + a.0 + seq!['='] + quote_of(a.2) + a.1 + quote_of(a.2)
}

/// Attributes as they are written, one after the other.
pub open spec fn attributes_written(list: Seq<Attribute>) -> Seq<char>
    decreases list.len(),
{
    if list.len() == 0 {
        Seq::empty()
    } else {
        attribute_written(list[0]) + attributes_written(list.skip(1))
    }
}

/// White space in a tag, by its code.
pub open spec fn is_gap(c: char) -> bool {
    c as u32 == 32 || 9 <= c as u32 <= 13
}

/// An attribute can be written as it is meant to be.
pub open spec fn is_writable(a: Attribute) -> bool {
    &&& a.0.len() > 0
    &&& forall|i: int| 0 <= i < a.0.len() ==> #[trigger] a.0[i] != '=' && !is_gap(a.0[i])
    &&& match a.2 {
        Quotes::Double => lacks(a.1, '"'),
        Quotes::Single => lacks(a.1, '\''),
        Quotes::Without => a.1.len() > 0 && a.1[0] != '"' && a.1[0] != '\'' && a.1.last() != '/'
            && forall|i: int| 0 <= i < a.1.len() ==> !is_gap(#[trigger] a.1[i]),
    }
}

/// One attribute is read where it stands.
proof fn lemma_attribute_is_read(head: Seq<char>, a: Attribute, tail: Seq<char>)
    requires
        is_writable(a),
        tail.len() > 0 ==> is_gap(tail[0]),
        (head + attribute_written(a)).len() <= open_len(head + attribute_written(a) + tail),
    ensures
        attrs_from(head + attribute_written(a) + tail, head.len() as int) == seq![
            (lower(a.0), a.1),
        ] + attrs_from(
            head + attribute_written(a) + tail,
            (head + attribute_written(a)).len() as int,
        ),
{
    let (name, value, q) = a;
    let one = attribute_written(a);
    let tag = head + one + tail;
    let from = head.len() as int;
    let start = from + 1;
    let stop = start + name.len();
    let after = from + one.len();
    lemma_open_len(tag);
    assert(is_name(name)) by {
        assert(forall|i: int| 0 <= i < name.len() ==> !at_name_end()(#[trigger] name[i]));
    }
    assert(tag[from] == ' ');
    assert(tag[stop] == '=');
    assert(tag.subrange(start, stop) == name);
    lemma_name_is_read(tag, from, start, name);
    assert(tag.take(open_len(tag)).len() == open_len(tag));
    match q {
        Quotes::Without => {
            assert(tag.subrange(stop + 1, after) == value);
            assert(tag[stop + 1] == value[0]);
            lemma_first_stop(tag, stop + 1, at_space());
            let end = first_stop(tag, stop + 1, at_space());
            if end < after {
                assert(tag[end] == tag.subrange(stop + 1, after)[end - stop - 1]);
                assert(!is_gap(value[end - stop - 1]));
            }
            if end > after {
                assert(tag[after] == tail[0]);
                assert(!at_space()(tag[after]));
            }
            assert(end == after);
            lemma_gap_is_skipped(tag, after);
        },
        _ => {
            let mark = quote_of(q)[0];
            let end = stop + 2 + value.len();
            assert(tag[stop + 1] == mark);
            assert(tag[end] == mark);
            assert(tag.subrange(stop + 2, end) == value);
            lemma_first_stop(tag, stop + 2, at_char(mark));
            let found = first_stop(tag, stop + 2, at_char(mark));
            if found < end {
                assert(tag[found] == tag.subrange(stop + 2, end)[found - stop - 2]);
                assert(value[found - stop - 2] == mark);
            }
            if found > end {
                assert(!at_char(mark)(tag[end]));
            }
            assert(end + 1 == after);
        },
    }
}

/// White space between attributes may be passed over.
proof fn lemma_gap_is_skipped(tag: Seq<char>, i: int)
    requires
        0 <= i <= tag.len(),
        i < tag.len() ==> is_gap(tag[i]),
    ensures
        attrs_from(tag, i) == attrs_from(tag, i + 1),
{
    lemma_open_len(tag);
    if i < open_len(tag) {
        assert(!off_space()(tag[i]));
        assert(first_stop(tag, i, off_space()) == first_stop(tag, i + 1, off_space()));
        assert(i + 1 < open_len(tag)) by {
            if i + 1 == open_len(tag) {
                assert(is_closing(tag[i]));
            }
        }
    }
}

/// Attributes are read one after the other.
proof fn lemma_attributes_are_read(head: Seq<char>, list: Seq<Attribute>, tail: Seq<char>)
    requires
        forall|k: int| 0 <= k < list.len() ==> is_writable(#[trigger] list[k]),
        tail.len() > 0 ==> is_gap(tail[0]),
        (head + attributes_written(list)).len() <= open_len(head + attributes_written(list) + tail),
    ensures
        attrs_from(head + attributes_written(list) + tail, head.len() as int) == read_attributes(
            list,
        ) + attrs_from(
            head + attributes_written(list) + tail,
            (head + attributes_written(list)).len() as int,
        ),
    decreases list.len(),
{
    let tag = head + attributes_written(list) + tail;
    if list.len() == 0 {
        assert(read_attributes(list) =~= Seq::empty());
        assert((head + attributes_written(list)).len() == head.len());
        assert(read_attributes(list) + attrs_from(tag, head.len() as int) == attrs_from(
            tag,
            head.len() as int,
        ));
    } else {
        let one = attribute_written(list[0]);
        let rest = list.skip(1);
        let more = attributes_written(rest) + tail;
        assert(tag =~= head + one + more);
        assert(tag =~= (head + one) + attributes_written(rest) + tail);
        assert(forall|k: int| 0 <= k < rest.len() ==> #[trigger] rest[k] == list[k + 1]);
        if rest.len() > 0 {
            assert(attributes_written(rest)[0] == ' ');
            assert(more[0] == ' ');
        } else {
            assert(more == tail);
        }
        assert(is_writable(list[0]));
        lemma_attribute_is_read(head, list[0], more);
        lemma_attributes_are_read(head + one, rest, tail);
        assert((head + one + attributes_written(rest)).len() == (head + attributes_written(
            list,
        )).len());
        let last = attrs_from(tag, (head + attributes_written(list)).len() as int);
        let first = seq![(lower(list[0].0), list[0].1)];
        assert(read_attributes(list) =~= first + read_attributes(rest));
        assert(first + (read_attributes(rest) + last) == read_attributes(list) + last);
    }
}

/// What is read of attributes: the names in small letters, the values as they are.
pub open spec fn read_attributes(list: Seq<Attribute>) -> Seq<(Seq<char>, Seq<char>)> {
    list.map_values(|a: Attribute| (lower(a.0), a.1))
}

/// The last character of written attributes closes no tag.
proof fn lemma_attributes_end(list: Seq<Attribute>)
    requires
        forall|k: int| 0 <= k < list.len() ==> is_writable(#[trigger] list[k]),
    ensures
        list.len() > 0 ==> attributes_written(list).len() > 0 && !is_closing(
            attributes_written(list).last(),
        ),
    decreases list.len(),
{
    if list.len() > 0 {
        let rest = list.skip(1);
        assert(forall|k: int| 0 <= k < rest.len() ==> #[trigger] rest[k] == list[k + 1]);
        lemma_attributes_end(rest);
        let a = list[0];
        assert(is_writable(a));
        let one = attribute_written(a);
        match a.2 {
            Quotes::Without => {
                assert(one.last() == a.1.last());
                assert(!is_gap(a.1[a.1.len() - 1]));
            },
            Quotes::Double => {
                assert(one.last() == '"');
            },
            Quotes::Single => {
                assert(one.last() == '\'');
            },
        }
        let all = one + attributes_written(rest);
        assert(attributes_written(list) == all);
        if rest.len() > 0 {
            assert(all.last() == attributes_written(rest).last());
        } else {
            assert(all.last() == one.last());
        }
    }
}

/// Attributes are read as they are written, whatever quotation marks stand around their
/// values: the names in small letters, the values as they are, all of them and in order.
pub proof fn law_attributes_in_any_quotes(list: Seq<Attribute>, slash: bool)
    requires
        forall|k: int| 0 <= k < list.len() ==> is_writable(#[trigger] list[k]),
    ensures
        attrs("<input"@ + attributes_written(list) + (if slash {
            " /"@
        } else {
            Seq::empty()
        })) == seq![("<input"@, Seq::<char>::empty())] + read_attributes(list),
{
    reveal_strlit("<input");
    reveal_strlit(" /");
    let tail: Seq<char> = if slash {
        " /"@
    } else {
        Seq::empty()
    };
    let body = "<input"@ + attributes_written(list);
    let n = body.len() as int;
    let tag = body + tail;
    lemma_attributes_end(list);
    assert(tag[n - 1] == body.last());
    assert(list.len() == 0 ==> body.last() == 't');
    assert(list.len() > 0 ==> body.last() == attributes_written(list).last());
    lemma_open_up_to(tag, n);
    lemma_attributes_are_read("<input"@, list, tail);
    assert(attrs_from(tag, n) == Seq::<(Seq<char>, Seq<char>)>::empty());
    assert(lower("<input"@) =~= "<input"@);
    assert(tag.subrange(0, 6) == "<input"@);
    if list.len() > 0 {
        assert(attributes_written(list)[0] == ' ');
        assert(tag[6] == ' ');
    }
    lemma_name_is_read(tag, 0, 0, "<input"@);
    assert(tag.take(n).len() == n);
    assert(attrs_from(tag, 0) == seq![("<input"@, Seq::<char>::empty())] + attrs_from(tag, 6));
    assert(attrs(tag) =~= seq![("<input"@, Seq::<char>::empty())] + read_attributes(list));
}

// ---------------------------------------------------------------------------
// Pages
// ---------------------------------------------------------------------------

/// A page with one input: the tag is found, whatever stands before it, and whatever stands
/// behind it that holds no other.
pub proof fn law_input_is_found(before: Seq<char>, rest: Seq<char>, after: Seq<char>)
    requires
        lacks(rest, '>'),
        forall|i: int|
            0 <= i < before.len() ==> !#[trigger] occurs_at(
                lower(before + "<input"@ + rest + ">"@ + after),
                "<input"@,
                i,
            ),
        forall|i: int| !#[trigger] occurs_at(lower(after), "<input"@, i),
    ensures
        input_tags(before + "<input"@ + rest + ">"@ + after) == seq!["<input"@ + rest],
{
    reveal_strlit("<input");
    reveal_strlit(">");
    let page = before + "<input"@ + rest + ">"@ + after;
    let n = before.len() as int;
    let end = n + 6 + rest.len();
    let small = lower(page);
    assert(small.subrange(n, n + 6) =~= "<input"@);
    lemma_found_behind(small, "<input"@, n);
    assert(page[end] == '>');
    lemma_first_stop(page, n, at_char('>'));
    let stop = first_stop(page, n, at_char('>'));
    if stop < end {
        if stop < n + 6 {
            assert(page[stop] == "<input"@[stop - n]);
        } else {
            assert(page[stop] == rest[stop - n - 6]);
        }
        assert(false);
    }
    if stop > end {
        assert(!at_char('>')(page[end]));
    }
    assert(page.subrange(n, end) == "<input"@ + rest);
    lemma_find_from(small, "<input"@, end + 1);
    assert(find_from(small, "<input"@, end + 1) is None) by {
        if let Some(k) = find_from(small, "<input"@, end + 1) {
            let j = k - end - 1;
            assert(lower(after).subrange(j, j + 6) =~= small.subrange(k, k + 6));
            assert(occurs_at(lower(after), "<input"@, j));
        }
    }
    assert(input_tags_from(page, end + 1) == Seq::<Seq<char>>::empty());
    assert(input_tags(page) =~= seq!["<input"@ + rest]);
}

/// The page of one input submits the field of that input, and no other.
pub proof fn law_page_submits_its_input(
    before: Seq<char>,
    list: Seq<(Seq<char>, Seq<char>)>,
    slash: bool,
    after: Seq<char>,
    n: int,
    v: int,
)
    requires
        can_be_written(list),
        none_named(list, "disabled"@),
        is_last_named(list, n, "name"@),
        is_last_named(list, v, "value"@),
        lacks(list[v].1, '&'),
        lacks(input_written(list, slash), '>'),
        forall|i: int|
            0 <= i < before.len() ==> !#[trigger] occurs_at(
                lower(before + input_written(list, slash) + ">"@ + after),
                "<input"@,
                i,
            ),
        forall|i: int| !#[trigger] occurs_at(lower(after), "<input"@, i),
    ensures
        form_fields(before + input_written(list, slash) + ">"@ + after) == seq![
            (list[n].1, list[v].1),
        ],
{
    let tag = input_written(list, slash);
    let rest = tag.skip(6);
    reveal_strlit("<input");
    assert(tag == "<input"@ + rest);
    assert(lacks(rest, '>')) by {
        assert forall|i: int| 0 <= i < rest.len() implies #[trigger] rest[i] != '>' by {
            assert(rest[i] == tag[i + 6]);
        }
    }
    assert(before + tag + ">"@ + after == before + "<input"@ + rest + ">"@ + after);
    law_input_is_found(before, rest, after);
    law_input_submits_its_value(list, slash, n, v);
    let read = |t: Seq<char>| tag_field(t);
    let found = seq![tag].map_values(read);
    assert(found == seq![tag_field(tag)]);
    assert(found.drop_last() == Seq::<Option<(Seq<char>, Seq<char>)>>::empty());
    assert(somes(found.drop_last()) == Seq::<(Seq<char>, Seq<char>)>::empty());
    assert(found.last() == Some((list[n].1, list[v].1)));
    assert(somes(found) =~= seq![(list[n].1, list[v].1)]);
}

/// The case of letters makes no difference to where the inputs of a page stand.
proof fn lemma_tags_in_any_case(a: Seq<char>, b: Seq<char>, from: int)
    requires
        lower(a) == lower(b),
        0 <= from <= a.len(),
    ensures
        input_tags_from(a, from).len() == input_tags_from(b, from).len(),
        forall|k: int|
            0 <= k < input_tags_from(a, from).len() ==> lower(
                #[trigger] input_tags_from(a, from)[k],
            ) == lower(input_tags_from(b, from)[k]),
    decreases a.len() - from,
{
    assert(lower(a).len() == a.len() && lower(b).len() == b.len());
    assert forall|i: int| 0 <= i < a.len() implies (#[trigger] a[i] == '>') == (b[i] == '>') by {
        law_small_letters(a, i);
        law_small_letters(b, i);
        assert(lower(a)[i] == lower(b)[i]);
    }
    lemma_find_from(lower(a), "<input"@, from);
    if let Some(s) = find_from(lower(a), "<input"@, from) {
        lemma_first_stop(a, s, at_char('>'));
        lemma_first_stop(b, s, at_char('>'));
        let (e, f) = (first_stop(a, s, at_char('>')), first_stop(b, s, at_char('>')));
        if e < f {
            assert(a[e] == '>');
            assert(!at_char('>')(b[e]));
        }
        if f < e {
            assert((a[f] == '>') == (b[f] == '>'));
            assert(!at_char('>')(a[f]));
        }
        assert(e == f);
        if e < a.len() {
            lemma_tags_in_any_case(a, b, e + 1);
            let (x, y) = (a.subrange(s, e), b.subrange(s, e));
            assert(lower(x) =~= lower(y)) by {
                assert(lower(x) =~= lower(a).subrange(s, e));
                assert(lower(y) =~= lower(b).subrange(s, e));
            }
            let (p, q) = (input_tags_from(a, from), input_tags_from(b, from));
            assert(p == seq![x] + input_tags_from(a, e + 1));
            assert(q == seq![y] + input_tags_from(b, e + 1));
            assert forall|k: int| 0 <= k < p.len() implies lower(#[trigger] p[k]) == lower(
                q[k],
            ) by {
                if k > 0 {
                    assert(p[k] == input_tags_from(a, e + 1)[k - 1]);
                    assert(q[k] == input_tags_from(b, e + 1)[k - 1]);
                }
            }
        }
    }
}

/// Pages that differ in the case of letters alone have the same inputs, but for case.
pub proof fn law_inputs_in_any_case(a: Seq<char>, b: Seq<char>)
    requires
        lower(a) == lower(b),
    ensures
        input_tags(a).len() == input_tags(b).len(),
        forall|k: int|
            0 <= k < input_tags(a).len() ==> lower(#[trigger] input_tags(a)[k]) == lower(
                input_tags(b)[k],
            ),
{
    lemma_tags_in_any_case(a, b, 0);
}

// ---------------------------------------------------------------------------
// Where the credentials go
// ---------------------------------------------------------------------------

/// A type of input into which nothing is typed.
pub open spec fn is_untyped(typ: Seq<char>) -> bool {
    typ == "hidden"@ || typ == "submit"@ || typ == "button"@ || typ == "reset"@ || typ == "image"@
        || typ == "checkbox"@ || typ == "radio"@ || typ == "file"@
}

/// The account goes into the nearest input before the password into which something is
/// typed, whatever its name.
pub proof fn law_account_is_typed_before_the_password(inputs: Seq<InputView>, k: int, p: int)
    requires
        0 <= k < p < inputs.len(),
        !is_untyped(inputs[k].1),
        inputs[p].1 == "password"@,
        forall|j: int| 0 <= j < p ==> (#[trigger] inputs[j]).1 != "password"@,
        forall|j: int| k < j < p ==> is_untyped((#[trigger] inputs[j]).1),
    ensures
        account_field(inputs) == Some(inputs[k].0),
        password_field(inputs) == Some(inputs[p].0),
{
    lemma_first_where(inputs, password_input(), 0);
    assert(password_input()(inputs[p]));
    let first = first_where(inputs, password_input(), 0)->0;
    if first < p {
        assert(password_input()(inputs[first]));
        assert(inputs[first].1 != "password"@);
    }
    if first > p {
        assert(!password_input()(inputs[p]));
    }
    lemma_last_where(inputs, text_input(), p);
    assert(text_input()(inputs[k]));
    let last = last_where(inputs, text_input(), p)->0;
    if last > k {
        assert(text_input()(inputs[last]));
        assert(is_untyped(inputs[last].1));
    }
}

/// A name speaks of an account: one of these words stands in it, in letters of either case.
pub open spec fn speaks_of_account(name: Seq<char>) -> bool {
    !is_free_of(lower(name), "user"@) || !is_free_of(lower(name), "account"@) || !is_free_of(
        lower(name),
        "login"@,
    ) || !is_free_of(lower(name), "name"@) || !is_free_of(lower(name), "id"@)
}

/// A page without a password input has no field for the password, and its account goes into
/// the first input into which something is typed and whose name speaks of an account.
pub proof fn law_account_is_found_by_name(inputs: Seq<InputView>, k: int)
    requires
        0 <= k < inputs.len(),
        forall|j: int| 0 <= j < inputs.len() ==> (#[trigger] inputs[j]).1 != "password"@,
        !is_untyped(inputs[k].1),
        speaks_of_account(inputs[k].0),
        forall|j: int|
            0 <= j < k ==> is_untyped((#[trigger] inputs[j]).1) || !speaks_of_account(inputs[j].0),
    ensures
        account_field(inputs) == Some(inputs[k].0),
        password_field(inputs) is None,
{
    lemma_first_where(inputs, password_input(), 0);
    if let Some(i) = first_where(inputs, password_input(), 0) {
        assert(password_input()(inputs[i]));
    }
    lemma_first_where(inputs, account_input(), 0);
    lemma_account_words(inputs[k].0);
    assert(account_input()(inputs[k]));
    let i = first_where(inputs, account_input(), 0)->0;
    if i < k {
        assert(account_input()(inputs[i]));
        lemma_account_words(inputs[i].0);
    }
    if i > k {
        assert(!account_input()(inputs[k]));
    }
}

/// The words by which a name speaks of an account.
proof fn lemma_account_words(name: Seq<char>)
    ensures
        hints_account(name) == speaks_of_account(name),
{
    law_contained_or_free(lower(name), "user"@);
    law_contained_or_free(lower(name), "account"@);
    law_contained_or_free(lower(name), "login"@);
    law_contained_or_free(lower(name), "name"@);
    law_contained_or_free(lower(name), "id"@);
}

/// Where nothing is typed whose name speaks of an account, and no password, no field is
/// found for the account.
pub proof fn law_no_account_without_a_name(inputs: Seq<InputView>)
    requires
        forall|j: int| 0 <= j < inputs.len() ==> (#[trigger] inputs[j]).1 != "password"@,
        forall|j: int|
            0 <= j < inputs.len() ==> is_untyped((#[trigger] inputs[j]).1) || !speaks_of_account(
                inputs[j].0,
            ),
    ensures
        account_field(inputs) is None,
        password_field(inputs) is None,
{
    lemma_first_where(inputs, password_input(), 0);
    if let Some(i) = first_where(inputs, password_input(), 0) {
        assert(password_input()(inputs[i]));
    }
    lemma_first_where(inputs, account_input(), 0);
    if let Some(i) = first_where(inputs, account_input(), 0) {
        assert(account_input()(inputs[i]));
        lemma_account_words(inputs[i].0);
    }
}

// ---------------------------------------------------------------------------
// The message
// ---------------------------------------------------------------------------

/// The message of a reply is the value of its hidden field `errMessage`, as it is written,
/// whatever stands around it.
pub proof fn law_message_comes_back(
    before: Seq<char>,
    x: Seq<char>,
    y: Seq<char>,
    message: Seq<char>,
    z: Seq<char>,
    after: Seq<char>,
)
    requires
        lacks(x, '>'),
        lacks(y, '>'),
        lacks(z, '>'),
        lacks(message, '>'),
        lacks(message, '"'),
        lacks(message, '&'),
        forall|i: int|
            0 <= i < 6 + x.len() + 15 + y.len() ==> !#[trigger] occurs_at(
                lower(message_tag_written(x, y, message, z)),
                "value="@,
                i,
            ),
        forall|i: int|
            0 <= i < before.len() ==> !#[trigger] occurs_at(
                lower(before + message_tag_written(x, y, message, z) + ">"@ + after),
                "<input"@,
                i,
            ),
        forall|i: int| !#[trigger] occurs_at(lower(after), "<input"@, i),
    ensures
        err_message(before + message_tag_written(x, y, message, z) + ">"@ + after) == message,
{
    let tag = message_tag_written(x, y, message, z);
    reveal_strlit("<input");
    reveal_strlit("id=\"errMessage\"");
    reveal_strlit("id=\"errmessage\"");
    reveal_strlit("value=\"");
    reveal_strlit("value=");
    reveal_strlit("\"");
    let rest = tag.skip(6);
    assert(tag == "<input"@ + rest);
    assert(lacks(rest, '>')) by {
        assert forall|i: int| 0 <= i < rest.len() implies #[trigger] rest[i] != '>' by {
            assert(rest == x + "id=\"errMessage\""@ + y + "value=\""@ + message + "\""@ + z);
            let (p, q) = (x.len() as int, y.len() as int);
            let m = message.len() as int;
            if i < p {
                assert(rest[i] == x[i]);
            } else if i < p + 15 {
                assert(rest[i] == "id=\"errMessage\""@[i - p]);
            } else if i < p + 15 + q {
                assert(rest[i] == y[i - p - 15]);
            } else if i < p + 15 + q + 7 {
                assert(rest[i] == "value=\""@[i - p - 15 - q]);
            } else if i < p + 22 + q + m {
                assert(rest[i] == message[i - p - 22 - q]);
            } else if i > p + 22 + q + m {
                assert(rest[i] == z[i - p - 23 - q - m]);
            }
        }
    }
    assert(before + tag + ">"@ + after == before + "<input"@ + rest + ">"@ + after);
    law_input_is_found(before, rest, after);
    let page = before + tag + ">"@ + after;
    assert(input_tags(page) == seq![tag]);
    // The tag is that of the message.
    let low = lower(tag);
    let n = 6 + x.len() as int;
    assert(low.subrange(n, n + 15) =~= "id=\"errmessage\""@);
    assert(occurs_at(low, "id=\"errmessage\""@, n));
    assert(holds_message(tag));
    lemma_first_where(input_tags(page), message_tag(), 0);
    assert(message_tag()(input_tags(page)[0]));
    assert(first_where(input_tags(page), message_tag(), 0) == Some(0int));
    // Its value.
    let at = n + 15 + y.len();
    assert(low.subrange(at, at + 6) =~= "value="@);
    lemma_found_behind(low, "value="@, at);
    let tail = tag.skip(at + 6);
    assert(tail == "\""@ + message + "\""@ + z);
    let end = 1 + message.len() as int;
    assert(tail[0] == '"' && tail[end] == '"');
    lemma_first_stop(tail, 1, at_char('"'));
    let stop = first_stop(tail, 1, at_char('"'));
    if stop < end {
        assert(tail[stop] == message[stop - 1]);
    }
    if stop > end {
        assert(!at_char('"')(tail[end]));
    }
    assert(tail.subrange(1, end) == message);
    law_plain_value_stays(message);
}

/// The tag of the field that holds the message.
pub open spec fn message_tag_written(
    x: Seq<char>,
    y: Seq<char>,
    message: Seq<char>,
    z: Seq<char>,
) -> Seq<char> {
    "<input"@ + x + "id=\"errMessage\""@ + y + "value=\""@ + message + "\""@ + z
}

/// A page without an input has no message, no fields and no inputs.
pub proof fn law_page_without_inputs_says_nothing(html: Seq<char>)
    requires
        forall|i: int| !#[trigger] occurs_at(lower(html), "<input"@, i),
    ensures
        err_message(html) == Seq::<char>::empty(),
        form_fields(html) == Seq::<(Seq<char>, Seq<char>)>::empty(),
        form_inputs(html) == Seq::<InputView>::empty(),
{
    lemma_find_from(lower(html), "<input"@, 0);
    assert(input_tags(html) == Seq::<Seq<char>>::empty());
    lemma_first_where(input_tags(html), message_tag(), 0);
    assert(input_tags(html).map_values(|t: Seq<char>| tag_field(t)) == Seq::<
        Option<(Seq<char>, Seq<char>)>,
    >::empty());
    assert(input_tags(html).map_values(|t: Seq<char>| tag_input(t)) == Seq::<
        Option<InputView>,
    >::empty());
}

/// The field that holds the message is known by its name, in either quotes and in letters
/// of either case, wherever it stands in the tag.
pub proof fn law_message_field_is_known_by_its_name(tag: Seq<char>)
    ensures
        holds_message(tag) == (!is_free_of(lower(tag), "id=\"errmessage\""@) || !is_free_of(
            lower(tag),
            "id='errmessage'"@,
        )),
{
    law_contained_or_free(lower(tag), "id=\"errmessage\""@);
    law_contained_or_free(lower(tag), "id='errmessage'"@);
}

/// The message is what stands in the quotes behind the first value, be they double or
/// single; without the second quote there is none.
pub proof fn law_message_stands_in_quotes(
    before: Seq<char>,
    quote: char,
    message: Seq<char>,
    after: Seq<char>,
)
    requires
        quote == '"' || quote == '\'',
        lacks(message, quote),
        lacks(message, '&'),
        forall|i: int|
            0 <= i < before.len() ==> !#[trigger] occurs_at(
                lower(before + "value="@ + seq![quote] + message + seq![quote] + after),
                "value="@,
                i,
            ),
        forall|i: int|
            0 <= i < before.len() ==> !#[trigger] occurs_at(
                lower(before + "value="@ + seq![quote] + message),
                "value="@,
                i,
            ),
    ensures
        tag_message(before + "value="@ + seq![quote] + message + seq![quote] + after) == message,
        tag_message(before + "value="@ + seq![quote] + message) == Seq::<char>::empty(),
{
    reveal_strlit("value=");
    let tag = before + "value="@ + seq![quote] + message + seq![quote] + after;
    let cut = before + "value="@ + seq![quote] + message;
    let at = before.len() as int;
    assert(lower(tag).subrange(at, at + 6) =~= "value="@);
    lemma_found_behind(lower(tag), "value="@, at);
    assert(lower(cut).subrange(at, at + 6) =~= "value="@);
    lemma_found_behind(lower(cut), "value="@, at);
    let tail = tag.skip(at + 6);
    assert(tail =~= seq![quote] + message + seq![quote] + after);
    let end = 1 + message.len() as int;
    assert(tail[0] == quote && tail[end] == quote);
    lemma_first_stop(tail, 1, at_char(quote));
    let stop = first_stop(tail, 1, at_char(quote));
    if stop < end {
        assert(tail[stop] == message[stop - 1]);
    }
    if stop > end {
        assert(!at_char(quote)(tail[end]));
    }
    assert(tail.subrange(1, end) =~= message);
    law_plain_value_stays(message);
    let open = cut.skip(at + 6);
    assert(open =~= seq![quote] + message);
    lemma_first_stop(open, 1, at_char(quote));
    let far = first_stop(open, 1, at_char(quote));
    if far < open.len() {
        assert(open[far] == message[far - 1]);
    }
}

/// An input with an empty name is none to fill in, though it submits its value.
pub proof fn law_nameless_input_is_not_filled_in(
    list: Seq<(Seq<char>, Seq<char>)>,
    slash: bool,
    n: int,
)
    requires
        can_be_written(list),
        none_named(list, "disabled"@),
        is_last_named(list, n, "name"@),
    ensures
        list[n].1.len() == 0 ==> tag_input(input_written(list, slash)) is None && tag_field(
            input_written(list, slash),
        ) is Some,
        list[n].1.len() > 0 ==> tag_input(input_written(list, slash)) is Some,
{
    reveal_strlit("disabled");
    reveal_strlit("name");
    lemma_written_value(list, slash, n, "disabled"@);
    lemma_written_value(list, slash, n, "name"@);
}

} // verus!
