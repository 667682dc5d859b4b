//! What the operations on text do.
use vstd::prelude::*;
use crate::text::{
    contains, dec, digits_value, find_from, joined, lemma_contains_find, lemma_find_from, lower,
    number, occurs_at, replaced, same_ignoring_case_spec, somes, split_on, starts_with, trim,
    trim_end, trim_start, without_end_slashes,
};

verus! {

// ---------------------------------------------------------------------------
// Words for characters
// ---------------------------------------------------------------------------

/// White space by its code.
pub open spec fn is_white(c: char) -> bool {
    let n = c as u32;
    (9 <= n && n <= 13) || n == 32 || n == 133 || n == 160 || n == 5760 || (8192 <= n && n <= 8202)
        || n == 8232 || n == 8233 || n == 8239 || n == 8287 || n == 12288
}

/// Nothing but white space.
pub open spec fn all_white(s: Seq<char>) -> bool {
    forall|i: int| 0 <= i < s.len() ==> is_white(#[trigger] s[i])
}

/// A text that neither begins nor ends with white space.
pub open spec fn is_tight(s: Seq<char>) -> bool {
    s.len() > 0 ==> !is_white(s[0]) && !is_white(s.last())
}

/// A text without a character.
pub open spec fn lacks(s: Seq<char>, c: char) -> bool {
    forall|i: int| 0 <= i < s.len() ==> #[trigger] s[i] != c
}

/// A text in which a word stands nowhere.
pub open spec fn is_free_of(s: Seq<char>, word: Seq<char>) -> bool {
    forall|a: Seq<char>, b: Seq<char>| s != #[trigger] (a + word + b)
}

// ---------------------------------------------------------------------------
// Searching
// ---------------------------------------------------------------------------

/// A text contains a word that stands in it, whatever stands around it.
pub proof fn law_word_is_contained(a: Seq<char>, word: Seq<char>, b: Seq<char>)
    ensures
        contains(a + word + b, word),
{
    let s = a + word + b;
    let n = a.len() as int;
    assert(s.subrange(n, n + word.len()) == word);
    assert(occurs_at(s, word, n));
}

/// Only a word that stands in a text is contained in it.
pub proof fn law_contained_word_stands(s: Seq<char>, word: Seq<char>) -> (parts: (
    Seq<char>,
    Seq<char>,
))
    requires
        contains(s, word),
    ensures
        s == parts.0 + word + parts.1,
{
    let i = choose|i: int| occurs_at(s, word, i);
    let (a, b) = (s.take(i), s.skip(i + word.len()));
    assert(s == a + word + b) by {
        assert(s.subrange(i, i + word.len()) == word);
        assert(s == s.take(i) + s.subrange(i, i + word.len()) + s.skip(i + word.len()));
    }
    (a, b)
}

/// A text contains a word exactly where the word stands in it.
pub proof fn law_contained_or_free(s: Seq<char>, word: Seq<char>)
    ensures
        contains(s, word) == !is_free_of(s, word),
{
    if contains(s, word) {
        let (a, b) = law_contained_word_stands(s, word);
        assert(s == a + word + b);
    }
    if !is_free_of(s, word) {
        let (a, b) = choose|a: Seq<char>, b: Seq<char>| s == #[trigger] (a + word + b);
        law_word_is_contained(a, word, b);
    }
}

/// A text begins with a word exactly where something follows the word.
pub proof fn law_begins_with(s: Seq<char>, word: Seq<char>)
    ensures
        starts_with(word + s, word),
        starts_with(s, word) ==> s.len() >= word.len() && s == word + s.skip(word.len() as int),
{
    assert((word + s).subrange(0, word.len() as int) == word);
    if starts_with(s, word) {
        assert(s.subrange(0, word.len() as int) == word);
        assert(s == s.subrange(0, word.len() as int) + s.skip(word.len() as int));
    }
}

// ---------------------------------------------------------------------------
// White space and case
// ---------------------------------------------------------------------------

/// Leading white space is dropped.
proof fn lemma_trim_start(w: Seq<char>, s: Seq<char>)
    requires
        all_white(w),
        s.len() > 0 ==> !is_white(s[0]),
    ensures
        trim_start(w + s) == s,
    decreases w.len(),
{
    if w.len() == 0 {
        assert(w + s == s);
        if s.len() > 0 {
            assert(!is_white(s[0]));
        }
    } else {
        assert((w + s)[0] == w[0]);
        assert((w + s).drop_first() == w.drop_first() + s);
        assert forall|i: int| 0 <= i < w.drop_first().len() implies is_white(
            #[trigger] w.drop_first()[i],
        ) by {
            assert(w.drop_first()[i] == w[i + 1]);
        }
        lemma_trim_start(w.drop_first(), s);
    }
}

/// White space at the end is dropped.
proof fn lemma_trim_end(s: Seq<char>, w: Seq<char>)
    requires
        all_white(w),
        s.len() > 0 ==> !is_white(s.last()),
    ensures
        trim_end(s + w) == s,
    decreases w.len(),
{
    if w.len() == 0 {
        assert(s + w == s);
    } else {
        assert((s + w).last() == w.last());
        assert(is_white(w[w.len() - 1]));
        assert((s + w).drop_last() == s + w.drop_last());
        assert forall|i: int| 0 <= i < w.drop_last().len() implies is_white(
            #[trigger] w.drop_last()[i],
        ) by {
            assert(w.drop_last()[i] == w[i]);
        }
        lemma_trim_end(s, w.drop_last());
    }
}

/// Trimming drops the white space around a text, and nothing else.
pub proof fn law_trimming_drops_white_space(before: Seq<char>, s: Seq<char>, after: Seq<char>)
    requires
        all_white(before),
        all_white(after),
        is_tight(s),
    ensures
        trim(before + s + after) == s,
{
    if s.len() > 0 {
        assert(before + s + after == before + (s + after));
        assert((s + after)[0] == s[0]);
        lemma_trim_start(before, s + after);
        lemma_trim_end(s, after);
    } else {
        assert(before + s + after == before + after);
        let w = before + after;
        assert(w == w + s);
        assert(all_white(w)) by {
            assert forall|i: int| 0 <= i < w.len() implies is_white(#[trigger] w[i]) by {
                if i < before.len() {
                    assert(w[i] == before[i]);
                } else {
                    assert(w[i] == after[i - before.len()]);
                }
            }
        }
        lemma_trim_start(w, s);
    }
}

/// What is trimmed neither begins nor ends with white space.
pub proof fn law_trimmed_text_is_tight(s: Seq<char>)
    ensures
        is_tight(trim(s)),
{
    lemma_start_is_tight(s);
    lemma_end_is_tight(trim_start(s));
}

/// What is left of a text does not begin with white space.
proof fn lemma_start_is_tight(s: Seq<char>)
    ensures
        trim_start(s).len() > 0 ==> !is_white(trim_start(s)[0]),
    decreases s.len(),
{
    if s.len() > 0 {
        lemma_start_is_tight(s.drop_first());
    }
}

/// What is left of a text does not end with white space, and begins as before.
proof fn lemma_end_is_tight(s: Seq<char>)
    ensures
        trim_end(s).len() > 0 ==> !is_white(trim_end(s).last()) && trim_end(s)[0] == s[0],
    decreases s.len(),
{
    if s.len() > 0 {
        lemma_end_is_tight(s.drop_last());
    }
}

/// A text in small letters differs in its capitals alone.
pub proof fn law_small_letters(s: Seq<char>, i: int)
    requires
        0 <= i < s.len(),
    ensures
        lower(s).len() == s.len(),
        65 <= s[i] as u32 <= 90 ==> lower(s)[i] as u32 == s[i] as u32 + 32,
        !(65 <= s[i] as u32 <= 90) ==> lower(s)[i] == s[i],
{
}

/// Texts in small letters are put together in small letters.
pub proof fn law_small_letters_of_parts(a: Seq<char>, b: Seq<char>)
    ensures
        lower(a + b) == lower(a) + lower(b),
        lower(lower(a)) == lower(a),
{
}

/// Two texts are the same but for case exactly where they have the same small letters.
pub proof fn law_same_but_for_case(a: Seq<char>, b: Seq<char>)
    ensures
        same_ignoring_case_spec(a, b) == (a.len() == b.len() && forall|i: int|
            0 <= i < a.len() ==> lower(a)[i] == #[trigger] lower(b)[i]),
{
    if a.len() == b.len() && forall|i: int|
        0 <= i < a.len() ==> lower(a)[i] == #[trigger] lower(b)[i] {
        assert(lower(a) =~= lower(b));
    }
    if same_ignoring_case_spec(a, b) {
        assert(lower(a).len() == a.len());
        assert(lower(b).len() == b.len());
    }
}

// ---------------------------------------------------------------------------
// Replacing and splitting
// ---------------------------------------------------------------------------

/// A text without a pattern stays as it is.
pub proof fn law_nothing_to_replace(s: Seq<char>, pat: Seq<char>, with: Seq<char>)
    requires
        is_free_of(s, pat),
    ensures
        replaced(s, pat, with) == s,
    decreases s.len(),
{
    if s.len() > 0 {
        if starts_with(s, pat) {
            law_begins_with(s, pat);
            assert(s == Seq::<char>::empty() + pat + s.skip(pat.len() as int));
            assert(false);
        }
        let rest = s.drop_first();
        assert forall|a: Seq<char>, b: Seq<char>| rest != #[trigger] (a + pat + b) by {
            if rest == a + pat + b {
                assert(s == seq![s[0]] + rest);
                assert(seq![s[0]] + (a + pat + b) == (seq![s[0]] + a) + pat + b);
            }
        }
        law_nothing_to_replace(rest, pat, with);
        assert(seq![s[0]] + rest == s);
    }
}

/// The first occurrence of a pattern is replaced, and then those behind it.
pub proof fn law_first_is_replaced(a: Seq<char>, pat: Seq<char>, b: Seq<char>, with: Seq<char>)
    requires
        pat.len() > 0,
        forall|i: int| 0 <= i < a.len() ==> !#[trigger] occurs_at(a + pat + b, pat, i),
    ensures
        replaced(a + pat + b, pat, with) == a + with + replaced(b, pat, with),
    decreases a.len(),
{
    let s = a + pat + b;
    if a.len() == 0 {
        assert(s.subrange(0, pat.len() as int) == pat);
        assert(s.skip(pat.len() as int) == b);
        assert(a + with == with);
    } else {
        let rest = a.drop_first();
        let t = rest + pat + b;
        assert(s.drop_first() == t);
        assert(!occurs_at(s, pat, 0));
        assert forall|i: int| 0 <= i < rest.len() implies !#[trigger] occurs_at(t, pat, i) by {
            if occurs_at(t, pat, i) {
                assert(s.subrange(i + 1, i + 1 + pat.len()) == t.subrange(i, i + pat.len()));
                assert(occurs_at(s, pat, i + 1));
            }
        }
        law_first_is_replaced(rest, pat, b, with);
        assert(s[0] == a[0]);
        assert(seq![a[0]] + (rest + with + replaced(b, pat, with)) == a + with + replaced(
            b,
            pat,
            with,
        ));
    }
}

/// The pieces of a text hold no separator, and put together again they are the text.
pub proof fn law_pieces_make_the_text(s: Seq<char>, sep: Seq<char>)
    requires
        sep.len() > 0,
    ensures
        split_on(s, sep).len() > 0,
        joined(split_on(s, sep), sep) == s,
        forall|k: int|
            0 <= k < split_on(s, sep).len() ==> !contains(#[trigger] split_on(s, sep)[k], sep),
    decreases s.len(),
{
    lemma_find_from(s, sep, 0);
    lemma_contains_find(s, sep);
    match find_from(s, sep, 0) {
        None => {},
        Some(i) => {
            let (head, rest) = (s.take(i), s.skip(i + sep.len()));
            law_pieces_make_the_text(rest, sep);
            let pieces = split_on(rest, sep);
            let all = split_on(s, sep);
            assert(all == seq![head] + pieces);
            assert(all.skip(1) == pieces);
            assert(s.subrange(i, i + sep.len()) == sep);
            assert(head + sep + rest == s);
            assert(!contains(head, sep)) by {
                if contains(head, sep) {
                    let j = choose|j: int| occurs_at(head, sep, j);
                    assert(s.subrange(j, j + sep.len()) == head.subrange(j, j + sep.len()));
                    assert(occurs_at(s, sep, j));
                }
            }
            assert forall|k: int| 0 <= k < all.len() implies !contains(#[trigger] all[k], sep) by {
                if k > 0 {
                    assert(all[k] == pieces[k - 1]);
                }
            }
        },
    }
}

/// What stands at a position and at none before it is found there.
pub proof fn lemma_found_behind<T>(s: Seq<T>, sep: Seq<T>, n: int)
    requires
        0 <= n,
        n + sep.len() <= s.len(),
        s.subrange(n, n + sep.len()) == sep,
        forall|i: int| 0 <= i < n ==> !#[trigger] occurs_at(s, sep, i),
    ensures
        find_from(s, sep, 0) == Some(n),
{
    assert(occurs_at(s, sep, n));
    lemma_find_from(s, sep, 0);
}

/// A piece up to the first separator is the first, and the others follow.
pub proof fn law_first_piece(a: Seq<char>, sep: Seq<char>, b: Seq<char>)
    requires
        sep.len() > 0,
        forall|i: int| 0 <= i < a.len() ==> !#[trigger] occurs_at(a + sep + b, sep, i),
    ensures
        split_on(a + sep + b, sep) == seq![a] + split_on(b, sep),
{
    let s = a + sep + b;
    let n = a.len() as int;
    assert(s.subrange(n, n + sep.len()) == sep);
    lemma_found_behind(s, sep, n);
    assert(s.take(n) == a);
    assert(s.skip(n + sep.len()) == b);
}

/// A text without a separator is one piece.
pub proof fn law_single_piece(s: Seq<char>, sep: Seq<char>)
    requires
        is_free_of(s, sep),
    ensures
        split_on(s, sep) == seq![s],
{
    law_contained_or_free(s, sep);
    lemma_contains_find(s, sep);
}

/// Items are put together one by one.
pub proof fn law_joined_one_by_one(x: Seq<char>, rest: Seq<Seq<char>>, sep: Seq<char>)
    ensures
        joined(seq![x], sep) == x,
        rest.len() > 0 ==> joined(seq![x] + rest, sep) == x + sep + joined(rest, sep),
        joined(Seq::empty(), sep) == Seq::<char>::empty(),
{
    assert((seq![x] + rest).skip(1) == rest);
}

/// What is there is kept in its order, and what is absent is left out.
pub proof fn law_present_items_stay<A>(s: Seq<Option<A>>, a: A)
    ensures
        somes(s.push(Some(a))) == somes(s).push(a),
        somes(s.push(None)) == somes(s),
        somes(Seq::<Option<A>>::empty()) == Seq::<A>::empty(),
{
    assert(s.push(Some(a)).drop_last() == s);
    assert(s.push(None).drop_last() == s);
}

/// Slashes at the end are dropped, and nothing else.
pub proof fn law_end_slashes_are_dropped(s: Seq<char>, n: nat)
    requires
        s.len() > 0 ==> s.last() != '/',
    ensures
        without_end_slashes(s + Seq::new(n, |i: int| '/')) == s,
    decreases n,
{
    let t = s + Seq::new(n, |i: int| '/');
    if n == 0 {
        assert(t == s);
    } else {
        assert(t.drop_last() == s + Seq::new((n - 1) as nat, |i: int| '/'));
        law_end_slashes_are_dropped(s, (n - 1) as nat);
    }
}

// ---------------------------------------------------------------------------
// Numbers
// ---------------------------------------------------------------------------

/// A digit of base ten.
pub open spec fn is_decimal_digit(c: char) -> bool {
    '0' <= c && c <= '9'
}

/// Decimal notation is made of digits, begins with zero for zero alone, and denotes the
/// number.
pub proof fn law_decimal_notation_comes_back(n: nat)
    ensures
        dec(n).len() > 0,
        forall|i: int| 0 <= i < dec(n).len() ==> is_decimal_digit(#[trigger] dec(n)[i]),
        n > 0 ==> dec(n)[0] != '0',
        digits_value(dec(n), 10) == Some(n as int),
        number(dec(n), 10) == Some(n as int),
    decreases n,
{
    let s = dec(n);
    if n < 10 {
        assert(s.drop_last() == Seq::<char>::empty());
        assert(digits_value(s.drop_last(), 10) == Some(0int));
    } else {
        law_decimal_notation_comes_back(n / 10);
        assert(s.drop_last() == dec(n / 10));
        assert forall|i: int| 0 <= i < s.len() implies is_decimal_digit(#[trigger] s[i]) by {
            if i < s.len() - 1 {
                assert(s[i] == dec(n / 10)[i]);
            }
        }
        assert(s[0] == dec(n / 10)[0]);
        assert(digits_value(s, 10) == Some((n / 10) as int * 10 + (n % 10)));
    }
    assert(is_decimal_digit(s[0]));
}

/// A number in base ten or sixteen is read digit by digit: each digit counts for what it is
/// in its place, capital or small.
pub proof fn law_digit_counts_in_its_place(s: Seq<char>, c: char)
    requires
        digits_value(s, 10) is Some,
    ensures
        is_decimal_digit(c) ==> digits_value(s.push(c), 10) == Some(
            digits_value(s, 10)->0 * 10 + (c as u32 - 48),
        ),
        !is_decimal_digit(c) ==> digits_value(s.push(c), 10) is None,
{
    assert(s.push(c).drop_last() == s);
}

/// A number in base sixteen is read digit by digit, capital or small.
pub proof fn law_hex_digit_counts_in_its_place(s: Seq<char>, c: char)
    requires
        digits_value(s, 16) is Some,
    ensures
        is_decimal_digit(c) ==> digits_value(s.push(c), 16) == Some(
            digits_value(s, 16)->0 * 16 + (c as u32 - 48),
        ),
        97 <= c as u32 <= 102 ==> digits_value(s.push(c), 16) == Some(
            digits_value(s, 16)->0 * 16 + (c as u32 - 87),
        ),
        65 <= c as u32 <= 70 ==> digits_value(s.push(c), 16) == Some(
            digits_value(s, 16)->0 * 16 + (c as u32 - 55),
        ),
        !is_decimal_digit(c) && !(97 <= c as u32 <= 102) && !(65 <= c as u32 <= 70)
            ==> digits_value(s.push(c), 16) is None,
{
    assert(s.push(c).drop_last() == s);
}

/// A sign in front of a number makes no difference; without a digit there is no number.
pub proof fn law_sign_makes_no_difference(s: Seq<char>)
    requires
        s.len() > 0 ==> s[0] != '+',
    ensures
        number(seq!['+'] + s, 10) == number(s, 10),
        number(Seq::empty(), 10) is None,
        s.len() > 0 ==> number(s, 10) == digits_value(s, 10),
{
    assert((seq!['+'] + s).drop_first() == s);
}

} // verus!
