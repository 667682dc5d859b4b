//! Text as sequences of characters: searching, trimming, replacing, and the
//! decimal and hexadecimal notation of numbers.
//!
//! Every function works on characters, never on byte offsets, so no cut can fall
//! inside a character.
use vstd::prelude::*;
use vstd::utf8::{encode_scalar, encode_utf8};

verus! {

/// `String::push` appends the one character it is given to the end of the string.
pub assume_specification[ String::push ](s: &mut String, c: char)
    ensures
        final(s)@ == old(s)@.push(c),
;

// ---------------------------------------------------------------------------
// Conversions
// ---------------------------------------------------------------------------

/// The characters of a string, in order.
pub fn chars_of(s: &str) -> (r: Vec<char>)
    ensures
        r@ == s@,
{
    let mut out: Vec<char> = Vec::new();
    for c in it: s.chars()
        invariant
            out@ == it.seq().take(it.index()),
            it.seq() == s@,
    {
        out.push(c);
        assert(it.seq().take(it.index() + 1) == it.seq().take(it.index()).push(c));
    }
    out
}

/// The string made of the given characters.
pub fn text_of(chars: &[char]) -> (r: String)
    ensures
        r@ == chars@,
{
    let mut out = String::new();
    let mut i: usize = 0;
    while i < chars.len()
        invariant
            i <= chars.len(),
            out@ == chars@.take(i as int),
        decreases chars.len() - i,
    {
        out.push(chars[i]);
        assert(chars@.take(i + 1) == chars@.take(i as int).push(chars@[i as int]));
        i += 1;
    }
    assert(chars@.take(chars.len() as int) == chars@);
    out
}

/// Appends `tail` to `out`.
pub fn push_text(out: &mut String, tail: &str)
    ensures
        final(out)@ == old(out)@ + tail@,
{
    let chars = chars_of(tail);
    let mut i: usize = 0;
    let ghost start = out@;
    while i < chars.len()
        invariant
            i <= chars.len(),
            chars@ == tail@,
            out@ == start + chars@.take(i as int),
        decreases chars.len() - i,
    {
        out.push(chars[i]);
        assert(chars@.take(i + 1) == chars@.take(i as int).push(chars@[i as int]));
        i += 1;
    }
    assert(chars@.take(chars.len() as int) == chars@);
}

/// The texts of `a` and `b`, one after the other.
pub fn join2(a: &str, b: &str) -> (r: String)
    ensures
        r@ == a@ + b@,
{
    let mut out = a.to_owned();
    push_text(&mut out, b);
    out
}

/// The texts of `a`, `b` and `c`, one after the other.
pub fn join3(a: &str, b: &str, c: &str) -> (r: String)
    ensures
        r@ == a@ + b@ + c@,
{
    let mut out = join2(a, b);
    push_text(&mut out, c);
    out
}

/// Four texts, one after the other.
pub fn join4(a: &str, b: &str, c: &str, d: &str) -> (r: String)
    ensures
        r@ == a@ + b@ + c@ + d@,
{
    let mut out = join3(a, b, c);
    push_text(&mut out, d);
    out
}

/// Five texts, one after the other.
pub fn join5(a: &str, b: &str, c: &str, d: &str, e: &str) -> (r: String)
    ensures
        r@ == a@ + b@ + c@ + d@ + e@,
{
    let mut out = join4(a, b, c, d);
    push_text(&mut out, e);
    out
}

/// Adds a line to a list of lines.
pub fn note(lines: &mut Vec<String>, line: String)
    ensures
        texts(final(lines)@) == texts(old(lines)@).push(line@),
{
    lines.push(line);
    assert(texts(lines@) == texts(old(lines)@).push(line@));
}

/// Whether two strings hold the same characters.
pub fn same_text(a: &str, b: &str) -> (r: bool)
    ensures
        r == (a@ == b@),
{
    same_chars(&chars_of(a), &chars_of(b))
}

/// Whether two runs of characters are equal.
pub fn same_chars(a: &[char], b: &[char]) -> (r: bool)
    ensures
        r == (a@ == b@),
{
    if a.len() != b.len() {
        return false;
    }
    let mut i: usize = 0;
    while i < a.len()
        invariant
            i <= a.len(),
            a@.len() == b@.len(),
            a@.take(i as int) == b@.take(i as int),
        decreases a.len() - i,
    {
        if a[i] != b[i] {
            assert(a@[i as int] != b@[i as int]);
            return false;
        }
        assert(a@.take(i + 1) == a@.take(i as int).push(a@[i as int]));
        assert(b@.take(i + 1) == b@.take(i as int).push(b@[i as int]));
        i += 1;
    }
    assert(a@.take(a.len() as int) == a@);
    assert(b@.take(b.len() as int) == b@);
    true
}

// ---------------------------------------------------------------------------
// Letter case
// ---------------------------------------------------------------------------

/// `c` with an ASCII capital turned into the small letter.
pub open spec fn lower_char_spec(c: char) -> char {
    if 'A' <= c && c <= 'Z' {
        (c as u32 + 32) as char
    } else {
        c
    }
}

/// `c` with an ASCII small letter turned into the capital.
pub open spec fn upper_char_spec(c: char) -> char {
    if 'a' <= c && c <= 'z' {
        (c as u32 - 32) as char
    } else {
        c
    }
}

/// A text with its ASCII capitals turned into small letters.
pub open spec fn lower(s: Seq<char>) -> Seq<char> {
    s.map_values(|c: char| lower_char_spec(c))
}

/// Two texts are the same but for the case of ASCII letters.
pub open spec fn same_ignoring_case_spec(a: Seq<char>, b: Seq<char>) -> bool {
    lower(a) == lower(b)
}

/// `c` with an ASCII capital turned into the small letter.
pub fn lower_char(c: char) -> (r: char)
    ensures
        r == lower_char_spec(c),
{
    if 'A' <= c && c <= 'Z' {
        (c as u8 + 32) as char
    } else {
        c
    }
}

/// `c` with an ASCII small letter turned into the capital.
pub fn upper_char(c: char) -> (r: char)
    ensures
        r == upper_char_spec(c),
{
    if 'a' <= c && c <= 'z' {
        (c as u8 - 32) as char
    } else {
        c
    }
}

/// The text with its ASCII capitals turned into small letters.
pub fn lower_chars(s: &[char]) -> (r: Vec<char>)
    ensures
        r@ == lower(s@),
{
    let mut out: Vec<char> = Vec::new();
    let mut i: usize = 0;
    while i < s.len()
        invariant
            i <= s.len(),
            out@ == lower(s@.take(i as int)),
        decreases s.len() - i,
    {
        out.push(lower_char(s[i]));
        i += 1;
        assert(out@ == lower(s@.take(i as int)));
    }
    assert(s@.take(s.len() as int) == s@);
    out
}

/// The string with its ASCII capitals turned into small letters.
pub fn lower_text(s: &str) -> (r: String)
    ensures
        r@ == lower(s@),
{
    text_of(&lower_chars(&chars_of(s)))
}

/// Whether two strings are the same but for the case of ASCII letters.
pub fn same_ignoring_case(a: &str, b: &str) -> (r: bool)
    ensures
        r == same_ignoring_case_spec(a@, b@),
{
    same_chars(&lower_chars(&chars_of(a)), &lower_chars(&chars_of(b)))
}

// ---------------------------------------------------------------------------
// White space
// ---------------------------------------------------------------------------

/// The Unicode White_Space characters.
pub open spec fn is_space_spec(c: char) -> bool {
    let n = c as u32;
    ||| 0x9 <= n <= 0xd
    ||| n == 0x20
    ||| n == 0x85
    ||| n == 0xa0
    ||| n == 0x1680
    ||| 0x2000 <= n <= 0x200a
    ||| n == 0x2028
    ||| n == 0x2029
    ||| n == 0x202f
    ||| n == 0x205f
    ||| n == 0x3000
}

/// The ASCII white space that separates attributes inside a tag.
pub open spec fn is_tag_space_spec(c: char) -> bool {
    c as u32 == 0x20 || 0x9 <= c as u32 <= 0xd
}

/// Whether `c` is a Unicode White_Space character.
pub fn is_space(c: char) -> (r: bool)
    ensures
        r == is_space_spec(c),
{
    let n = c as u32;
    (0x9 <= n && n <= 0xd) || n == 0x20 || n == 0x85 || n == 0xa0 || n == 0x1680 || (0x2000 <= n
        && n <= 0x200a) || n == 0x2028 || n == 0x2029 || n == 0x202f || n == 0x205f || n == 0x3000
}

/// Whether `c` is white space that separates attributes inside a tag.
pub fn is_tag_space(c: char) -> (r: bool)
    ensures
        r == is_tag_space_spec(c),
{
    let n = c as u32;
    n == 0x20 || (0x9 <= n && n <= 0xd)
}

/// A text without the white space at its start.
pub open spec fn trim_start(s: Seq<char>) -> Seq<char>
    decreases s.len(),
{
    if s.len() > 0 && is_space_spec(s[0]) {
        trim_start(s.drop_first())
    } else {
        s
    }
}

/// A text without the white space at its end.
pub open spec fn trim_end(s: Seq<char>) -> Seq<char>
    decreases s.len(),
{
    if s.len() > 0 && is_space_spec(s.last()) {
        trim_end(s.drop_last())
    } else {
        s
    }
}

/// A text without the white space at either end.
pub open spec fn trim(s: Seq<char>) -> Seq<char> {
    trim_end(trim_start(s))
}

/// The part of `s` between the white space at its two ends.
pub fn trimmed(s: &[char]) -> (r: &[char])
    ensures
        r@ == trim(s@),
{
    let mut a: usize = 0;
    assert(s@.skip(0) == s@);
    while a < s.len() && is_space(s[a])
        invariant
            a <= s.len(),
            trim_start(s@) == trim_start(s@.skip(a as int)),
        decreases s.len() - a,
    {
        assert(s@.skip(a as int).drop_first() == s@.skip(a + 1));
        a += 1;
    }
    assert(trim_start(s@) == s@.skip(a as int));
    let rest = &s[a..s.len()];
    assert(rest@ == s@.skip(a as int));
    let mut b: usize = rest.len();
    assert(rest@.take(b as int) == rest@);
    while b > 0 && is_space(rest[b - 1])
        invariant
            b <= rest.len(),
            trim_end(rest@) == trim_end(rest@.take(b as int)),
        decreases b,
    {
        assert(rest@.take(b as int).drop_last() == rest@.take(b - 1));
        b -= 1;
    }
    let r = &rest[0..b];
    assert(r@ == rest@.take(b as int));
    r
}

/// The string without the white space at its two ends.
pub fn trim_text(s: &str) -> (r: String)
    ensures
        r@ == trim(s@),
{
    text_of(trimmed(&chars_of(s)))
}

/// Whether nothing but white space stands in `s`.
pub fn is_blank(s: &str) -> (r: bool)
    ensures
        r == (trim(s@).len() == 0),
{
    trimmed(&chars_of(s)).len() == 0
}

// ---------------------------------------------------------------------------
// Searching
// ---------------------------------------------------------------------------

/// The first position from `from` on at which `stop` holds, or the end of the text.
pub open spec fn first_stop(s: Seq<char>, from: int, stop: spec_fn(char) -> bool) -> int
    decreases s.len() - from,
{
    if from < 0 || from >= s.len() || stop(s[from]) {
        from
    } else {
        first_stop(s, from + 1, stop)
    }
}

/// What `first_stop` returns: no character before it stops, and the one at it does.
pub proof fn lemma_first_stop(s: Seq<char>, from: int, stop: spec_fn(char) -> bool)
    requires
        0 <= from <= s.len(),
    ensures
        from <= first_stop(s, from, stop) <= s.len(),
        forall|j: int| from <= j < first_stop(s, from, stop) ==> !stop(#[trigger] s[j]),
        first_stop(s, from, stop) < s.len() ==> stop(s[first_stop(s, from, stop)]),
    decreases s.len() - from,
{
    if from < s.len() && !stop(s[from]) {
        lemma_first_stop(s, from + 1, stop);
    }
}

/// A search from within the second part of a text stops where one of that part alone does.
pub proof fn lemma_first_stop_behind(
    a: Seq<char>,
    b: Seq<char>,
    from: int,
    stop: spec_fn(char) -> bool,
)
    requires
        0 <= from <= b.len(),
    ensures
        first_stop(a + b, a.len() + from, stop) == a.len() + first_stop(b, from, stop),
    decreases b.len() - from,
{
    if from < b.len() {
        assert((a + b)[a.len() + from] == b[from]);
        if !stop(b[from]) {
            lemma_first_stop_behind(a, b, from + 1, stop);
        }
    }
}

/// The first position from `from` on at which `stop` holds, or the length of `s`.
pub fn scan_to<F: Fn(char) -> bool>(
    s: &[char],
    from: usize,
    stop: F,
    Ghost(p): Ghost<spec_fn(char) -> bool>,
) -> (r: usize)
    requires
        from <= s@.len(),
        forall|c: char| call_requires(stop, (c,)),
        forall|c: char, b: bool| call_ensures(stop, (c,), b) ==> b == p(c),
    ensures
        r == first_stop(s@, from as int, p),
        from <= r <= s@.len(),
{
    let mut i: usize = from;
    while i < s.len() && !stop(s[i])
        invariant
            from <= i <= s@.len(),
            forall|c: char| call_requires(stop, (c,)),
            forall|c: char, b: bool| call_ensures(stop, (c,), b) ==> b == p(c),
            first_stop(s@, from as int, p) == first_stop(s@, i as int, p),
        decreases s.len() - i,
    {
        i += 1;
    }
    i
}

/// The one character `q`.
pub open spec fn at_char(q: char) -> spec_fn(char) -> bool {
    |c: char| c == q
}

/// The first position from `from` on at which `q` stands, or the length of `s`.
pub fn scan_to_char(s: &[char], from: usize, q: char) -> (r: usize)
    requires
        from <= s@.len(),
    ensures
        r == first_stop(s@, from as int, at_char(q)),
        from <= r <= s@.len(),
{
    let mut i: usize = from;
    while i < s.len() && s[i] != q
        invariant
            from <= i <= s@.len(),
            first_stop(s@, from as int, at_char(q)) == first_stop(s@, i as int, at_char(q)),
        decreases s.len() - i,
    {
        i += 1;
    }
    i
}

/// `pat` stands in `s` at position `i`.
pub open spec fn occurs_at<T>(s: Seq<T>, pat: Seq<T>, i: int) -> bool {
    &&& 0 <= i
    &&& i + pat.len() <= s.len()
    &&& s.subrange(i, i + pat.len()) =~= pat
}

/// The first position from `from` on at which `pat` stands in `s`.
pub open spec fn find_from<T>(s: Seq<T>, pat: Seq<T>, from: int) -> Option<int>
    decreases s.len() - from,
{
    if from < 0 || from > s.len() || from + pat.len() > s.len() {
        None
    } else if occurs_at(s, pat, from) {
        Some(from)
    } else if from == s.len() {
        None
    } else {
        find_from(s, pat, from + 1)
    }
}

/// `pat` stands somewhere in `s`.
pub open spec fn contains<T>(s: Seq<T>, pat: Seq<T>) -> bool {
    exists|i: int| occurs_at(s, pat, i)
}

/// `s` begins with `pat`.
pub open spec fn starts_with<T>(s: Seq<T>, pat: Seq<T>) -> bool {
    occurs_at(s, pat, 0)
}

/// What `find_from` returns: the least position, and `None` only where there is none.
pub proof fn lemma_find_from<T>(s: Seq<T>, pat: Seq<T>, from: int)
    requires
        0 <= from,
    ensures
        match find_from(s, pat, from) {
            Some(i) => from <= i && occurs_at(s, pat, i) && forall|j: int|
                from <= j < i ==> !#[trigger] occurs_at(s, pat, j),
            None => forall|j: int| from <= j ==> !#[trigger] occurs_at(s, pat, j),
        },
    decreases s.len() - from,
{
    if from < s.len() && from + pat.len() <= s.len() && !occurs_at(s, pat, from) {
        lemma_find_from(s, pat, from + 1);
    }
}

/// A search from within the second part of a text finds what one of that part alone does.
pub proof fn lemma_find_behind<T>(a: Seq<T>, b: Seq<T>, pat: Seq<T>, from: int)
    requires
        0 <= from <= b.len(),
    ensures
        find_from(a + b, pat, a.len() + from) == (match find_from(b, pat, from) {
            Some(i) => Some(a.len() + i),
            None => None,
        }),
    decreases b.len() - from,
{
    if from + pat.len() <= b.len() {
        assert((a + b).subrange(a.len() + from, a.len() + from + pat.len()) == b.subrange(
            from,
            from + pat.len(),
        ));
        if from < b.len() && !occurs_at(b, pat, from) {
            lemma_find_behind(a, b, pat, from + 1);
        }
    }
}

/// A text contains `pat` exactly where a search from its start finds it.
pub proof fn lemma_contains_find<T>(s: Seq<T>, pat: Seq<T>)
    ensures
        contains(s, pat) == (find_from(s, pat, 0) is Some),
{
    lemma_find_from(s, pat, 0);
    if find_from(s, pat, 0) is Some {
        assert(occurs_at(s, pat, find_from(s, pat, 0)->0));
    }
}

/// Whether `pat` stands in `s` at position `i`.
pub fn occurs(s: &[char], pat: &[char], i: usize) -> (r: bool)
    requires
        i <= s@.len(),
    ensures
        r == occurs_at(s@, pat@, i as int),
{
    if pat.len() > s.len() - i {
        return false;
    }
    same_chars(&s[i..i + pat.len()], pat)
}

/// The first position from `from` on at which `pat` stands in `s`.
pub fn find(s: &[char], pat: &[char], from: usize) -> (r: Option<usize>)
    requires
        from <= s@.len(),
    ensures
        match r {
            Some(i) => find_from(s@, pat@, from as int) == Some(i as int) && from <= i && i
                + pat@.len() <= s@.len(),
            None => find_from(s@, pat@, from as int) is None,
        },
{
    let mut i: usize = from;
    loop
        invariant
            from <= i <= s@.len(),
            find_from(s@, pat@, from as int) == find_from(s@, pat@, i as int),
        decreases s@.len() - i,
    {
        if pat.len() > s.len() - i {
            return None;
        }
        if occurs(s, pat, i) {
            return Some(i);
        }
        if i == s.len() {
            return None;
        }
        i += 1;
    }
}

/// Whether `pat` stands in `s` at position `i`.
fn bytes_occur(s: &[u8], pat: &[u8], i: usize) -> (r: bool)
    requires
        i <= s@.len(),
    ensures
        r == occurs_at(s@, pat@, i as int),
{
    if pat.len() > s.len() - i {
        return false;
    }
    let ghost here = s@.subrange(i as int, i + pat@.len());
    let total = s.len();
    let mut k: usize = 0;
    while k < pat.len()
        invariant
            k <= pat@.len(),
            i + pat@.len() <= total == s@.len(),
            here == s@.subrange(i as int, i + pat@.len()),
            forall|j: int| 0 <= j < k ==> here[j] == pat@[j],
        decreases pat@.len() - k,
    {
        if s[i + k] != pat[k] {
            assert(here[k as int] != pat@[k as int]);
            return false;
        }
        k += 1;
    }
    true
}

/// The first position from `from` on at which the bytes `pat` stand in `s`.
pub fn find_bytes(s: &[u8], pat: &[u8], from: usize) -> (r: Option<usize>)
    requires
        from <= s@.len(),
    ensures
        match r {
            Some(i) => find_from(s@, pat@, from as int) == Some(i as int) && from <= i && i
                + pat@.len() <= s@.len(),
            None => find_from(s@, pat@, from as int) is None,
        },
{
    let mut i: usize = from;
    loop
        invariant
            from <= i <= s@.len(),
            find_from(s@, pat@, from as int) == find_from(s@, pat@, i as int),
        decreases s@.len() - i,
    {
        if pat.len() > s.len() - i {
            return None;
        }
        if bytes_occur(s, pat, i) {
            return Some(i);
        }
        if i == s.len() {
            return None;
        }
        i += 1;
    }
}

/// Whether `pat` stands somewhere in `s`.
pub fn contains_text(s: &[char], pat: &[char]) -> (r: bool)
    ensures
        r == contains(s@, pat@),
{
    proof {
        lemma_contains_find(s@, pat@);
    }
    find(s, pat, 0).is_some()
}

/// Whether `s` begins with `pat`.
pub fn begins_with(s: &[char], pat: &[char]) -> (r: bool)
    ensures
        r == starts_with(s@, pat@),
{
    occurs(s, pat, 0)
}

// ---------------------------------------------------------------------------
// Replacing
// ---------------------------------------------------------------------------

/// `s` with each occurrence of `pat`, taken from the left, replaced by `with`.
pub open spec fn replaced(s: Seq<char>, pat: Seq<char>, with: Seq<char>) -> Seq<char>
    decreases s.len(),
{
    if s.len() == 0 {
        Seq::empty()
    } else if pat.len() > 0 && starts_with(s, pat) {
        with + replaced(s.skip(pat.len() as int), pat, with)
    } else {
        seq![s[0]] + replaced(s.drop_first(), pat, with)
    }
}

/// `s` with each occurrence of `pat`, taken from the left, replaced by `with`.
pub fn replace(s: &[char], pat: &[char], with: &[char]) -> (r: Vec<char>)
    requires
        pat@.len() > 0,
    ensures
        r@ == replaced(s@, pat@, with@),
{
    let mut out: Vec<char> = Vec::new();
    let mut i: usize = 0;
    assert(s@.skip(0) == s@);
    while i < s.len()
        invariant
            i <= s@.len(),
            pat@.len() > 0,
            out@ + replaced(s@.skip(i as int), pat@, with@) == replaced(s@, pat@, with@),
        decreases s@.len() - i,
    {
        let ghost rest = s@.skip(i as int);
        let here = occurs(s, pat, i);
        proof {
            if i + pat@.len() <= s@.len() {
                assert(rest.subrange(0, pat@.len() as int) == s@.subrange(
                    i as int,
                    i + pat@.len(),
                ));
            }
            assert(here == starts_with(rest, pat@));
        }
        if here {
            let ghost before = out@;
            let mut tail: Vec<char> = Vec::new();
            tail.extend_from_slice(with);
            out.append(&mut tail);
            assert(out@ == before + with@);
            assert(rest.skip(pat@.len() as int) == s@.skip(i + pat@.len()));
            i += pat.len();
        } else {
            out.push(s[i]);
            assert(rest.drop_first() == s@.skip(i + 1));
            i += 1;
        }
        assert(out@ + replaced(s@.skip(i as int), pat@, with@) == replaced(s@, pat@, with@));
    }
    assert(s@.skip(i as int).len() == 0);
    out
}

// ---------------------------------------------------------------------------
// Splitting
// ---------------------------------------------------------------------------

/// The pieces of `s` between the occurrences of `sep`, taken from the left.
pub open spec fn split_on(s: Seq<char>, sep: Seq<char>) -> Seq<Seq<char>>
    decreases s.len(),
{
    proof {
        lemma_find_from(s, sep, 0);
    }
    match find_from(s, sep, 0) {
        Some(i) => if sep.len() > 0 {
            seq![s.take(i)] + split_on(s.skip(i + sep.len()), sep)
        } else {
            seq![s]
        },
        None => seq![s],
    }
}

/// The pieces of `s` between the occurrences of `sep`.
pub fn split_chars(s: &[char], sep: &[char]) -> (r: Vec<Vec<char>>)
    requires
        sep@.len() > 0,
    ensures
        r@.map_values(|p: Vec<char>| p@) == split_on(s@, sep@),
        r@.len() > 0,
{
    let mut out: Vec<Vec<char>> = Vec::new();
    let mut from: usize = 0;
    assert(s@.skip(0) == s@);
    loop
        invariant
            from <= s@.len(),
            sep@.len() > 0,
            out@.map_values(|p: Vec<char>| p@) + split_on(s@.skip(from as int), sep@) == split_on(
                s@,
                sep@,
            ),
        decreases s@.len() - from,
    {
        let rest = &s[from..s.len()];
        assert(rest@ == s@.skip(from as int));
        let ghost before = out@.map_values(|p: Vec<char>| p@);
        match find(rest, sep, 0) {
            None => {
                let mut piece: Vec<char> = Vec::new();
                piece.extend_from_slice(rest);
                assert(piece@ == rest@);
                out.push(piece);
                assert(out@.map_values(|p: Vec<char>| p@) == before.push(piece@));
                return out;
            },
            Some(i) => {
                let mut piece: Vec<char> = Vec::new();
                piece.extend_from_slice(&rest[0..i]);
                assert(piece@ == rest@.take(i as int));
                out.push(piece);
                assert(out@.map_values(|p: Vec<char>| p@) == before.push(piece@));
                assert(rest@.skip(i + sep@.len()) == s@.skip(from + i + sep@.len()));
                from = from + i + sep.len();
            },
        }
    }
}

// ---------------------------------------------------------------------------
// Numbers
// ---------------------------------------------------------------------------

/// The character of a digit below ten.
pub open spec fn digit(d: int) -> char {
    (d + 48) as char
}

/// The decimal notation of a natural number.
pub open spec fn dec(n: nat) -> Seq<char>
    decreases n,
{
    if n < 10 {
        seq![digit(n as int)]
    } else {
        dec(n / 10).push(digit((n % 10) as int))
    }
}

/// `s` with zeros put before it up to `width` characters.
pub open spec fn zero_padded(s: Seq<char>, width: nat) -> Seq<char> {
    if s.len() >= width {
        s
    } else {
        Seq::new((width - s.len()) as nat, |i: int| '0') + s
    }
}

/// Appends the decimal notation of `n`.
pub fn push_dec(out: &mut String, n: u64)
    ensures
        final(out)@ == old(out)@ + dec(n as nat),
    decreases n,
{
    if n >= 10 {
        push_dec(out, n / 10);
    }
    out.push(((n % 10) as u8 + 48) as char);
    assert(out@ == old(out)@ + dec(n as nat));
}

/// The decimal notation of `n`.
pub fn dec_text(n: u64) -> (r: String)
    ensures
        r@ == dec(n as nat),
{
    let mut out = String::new();
    push_dec(&mut out, n);
    assert(out@ == dec(n as nat));
    out
}

/// Appends the decimal notation of `n` with zeros before it up to `width` characters.
pub fn push_padded(out: &mut String, n: u64, width: usize)
    ensures
        final(out)@ == old(out)@ + zero_padded(dec(n as nat), width as nat),
{
    let digits = dec_text(n);
    let len = chars_of(&digits).len();
    let mut i: usize = len;
    let ghost start = out@;
    while i < width
        invariant
            len <= i,
            i <= width || i == len,
            out@ == start + Seq::new((i - len) as nat, |k: int| '0'),
        decreases width - i,
    {
        out.push('0');
        i += 1;
        assert(out@ == start + Seq::new((i - len) as nat, |k: int| '0'));
    }
    push_text(out, &digits);
    assert(out@ == start + zero_padded(dec(n as nat), width as nat));
}

/// The value of `c` as a digit in base `radix` (at most 16).
pub open spec fn digit_value(c: char, radix: int) -> Option<int> {
    let v = if '0' <= c && c <= '9' {
        c as u32 - 48
    } else if 'a' <= c && c <= 'f' {
        c as u32 - 87
    } else if 'A' <= c && c <= 'F' {
        c as u32 - 55
    } else {
        radix
    };
    if v < radix {
        Some(v)
    } else {
        None
    }
}

/// The number that a run of digits denotes in base `radix`.
pub open spec fn digits_value(s: Seq<char>, radix: int) -> Option<int>
    decreases s.len(),
{
    if s.len() == 0 {
        Some(0)
    } else {
        match (digits_value(s.drop_last(), radix), digit_value(s.last(), radix)) {
            (Some(v), Some(d)) => Some(v * radix + d),
            _ => None,
        }
    }
}

/// The number that a text denotes in base `radix`: digits, at least one, after an
/// optional plus sign.
pub open spec fn number(s: Seq<char>, radix: int) -> Option<int> {
    let digits = if s.len() > 0 && s[0] == '+' {
        s.drop_first()
    } else {
        s
    };
    if digits.len() == 0 {
        None
    } else {
        digits_value(digits, radix)
    }
}

/// Digits put behind a run of digits make no smaller number.
proof fn lemma_digits_grow(s: Seq<char>, k: int, radix: int)
    requires
        0 <= k <= s.len(),
        radix >= 2,
        digits_value(s, radix) is Some,
    ensures
        digits_value(s.take(k), radix) is Some,
        0 <= digits_value(s.take(k), radix)->0 <= digits_value(s, radix)->0,
    decreases s.len() - k, s.len(),
{
    if k == s.len() {
        assert(s.take(k) == s);
        if s.len() > 0 {
            lemma_digits_grow(s.drop_last(), s.len() - 1, radix);
            assert(s.drop_last().take(s.len() - 1) == s.drop_last());
            let v = digits_value(s.drop_last(), radix)->0;
            assert(v * radix >= 0) by (nonlinear_arith)
                requires
                    v >= 0,
                    radix >= 2,
            ;
        }
    } else {
        lemma_digits_grow(s.drop_last(), k, radix);
        assert(s.drop_last().take(k) == s.take(k));
        let v = digits_value(s.drop_last(), radix)->0;
        assert(v * radix >= v) by (nonlinear_arith)
            requires
                v >= 0,
                radix >= 2,
        ;
    }
}

/// The value of `c` as a digit in base `radix`.
fn digit_of(c: char, radix: u8) -> (r: Option<u8>)
    requires
        2 <= radix <= 16,
    ensures
        match r {
            Some(d) => digit_value(c, radix as int) == Some(d as int) && d < radix,
            None => digit_value(c, radix as int) is None,
        },
{
    let v: u8 = if '0' <= c && c <= '9' {
        c as u8 - 48
    } else if 'a' <= c && c <= 'f' {
        c as u8 - 87
    } else if 'A' <= c && c <= 'F' {
        c as u8 - 55
    } else {
        radix
    };
    if v < radix {
        Some(v)
    } else {
        None
    }
}

/// The number that `s` denotes in base `radix`, if it is one and is at most `max`.
pub fn parse_number(s: &[char], radix: u8, max: u64) -> (r: Option<u64>)
    requires
        2 <= radix <= 16,
    ensures
        match r {
            Some(n) => number(s@, radix as int) == Some(n as int) && n <= max,
            None => number(s@, radix as int) is None || number(s@, radix as int)->0 > max,
        },
{
    let start: usize = if s.len() > 0 && s[0] == '+' {
        1
    } else {
        0
    };
    let digits = &s[start..s.len()];
    proof {
        if start == 1 {
            assert(digits@ == s@.drop_first());
        } else {
            assert(digits@ == s@);
        }
    }
    if digits.len() == 0 {
        return None;
    }
    let mut value: u64 = 0;
    let mut i: usize = 0;
    assert(digits_value(digits@.take(0), radix as int) == Some(0int));
    while i < digits.len()
        invariant
            i <= digits@.len(),
            2 <= radix <= 16,
            digits@.len() > 0,
            number(s@, radix as int) == digits_value(digits@, radix as int),
            digits_value(digits@.take(i as int), radix as int) == Some(value as int),
            value <= max,
        decreases digits@.len() - i,
    {
        let ghost whole = digits_value(digits@, radix as int);
        assert(digits@.take(i + 1).drop_last() == digits@.take(i as int));
        assert(digits@.take(i + 1).last() == digits@[i as int]);
        proof {
            if whole is Some {
                lemma_digits_grow(digits@, i + 1, radix as int);
            }
        }
        match digit_of(digits[i], radix) {
            None => {
                return None;
            },
            Some(d) => {
                assert(0 <= value * radix <= value * 16) by (nonlinear_arith)
                    requires
                        0 <= value,
                        2 <= radix <= 16,
                ;
                let next: u128 = value as u128 * radix as u128 + d as u128;
                if next > max as u128 {
                    return None;
                }
                value = next as u64;
            },
        }
        i += 1;
    }
    assert(digits@.take(digits@.len() as int) == digits@);
    Some(value)
}

// ---------------------------------------------------------------------------
// Lists
// ---------------------------------------------------------------------------

/// The characters of a pair of strings.
pub open spec fn pair_view(p: (String, String)) -> (Seq<char>, Seq<char>) {
    (p.0@, p.1@)
}

/// The characters of a list of pairs of strings.
pub open spec fn pairs(s: Seq<(String, String)>) -> Seq<(Seq<char>, Seq<char>)> {
    s.map_values(|p: (String, String)| pair_view(p))
}

/// The characters of a list of strings.
pub open spec fn texts(s: Seq<String>) -> Seq<Seq<char>> {
    s.map_values(|t: String| t@)
}

/// The characters of a string that may be absent.
pub open spec fn opt_text(s: Option<String>) -> Option<Seq<char>> {
    match s {
        Some(t) => Some(t@),
        None => None,
    }
}

/// The values that are present in a list, in order.
pub open spec fn somes<A>(s: Seq<Option<A>>) -> Seq<A>
    decreases s.len(),
{
    if s.len() == 0 {
        Seq::empty()
    } else {
        match s.last() {
            Some(a) => somes(s.drop_last()).push(a),
            None => somes(s.drop_last()),
        }
    }
}

/// The first position from `from` on whose item satisfies `p`.
pub open spec fn first_where<A>(s: Seq<A>, p: spec_fn(A) -> bool, from: int) -> Option<int>
    decreases s.len() - from,
{
    if from < 0 || from >= s.len() {
        None
    } else if p(s[from]) {
        Some(from)
    } else {
        first_where(s, p, from + 1)
    }
}

/// The last position before `before` whose item satisfies `p`.
pub open spec fn last_where<A>(s: Seq<A>, p: spec_fn(A) -> bool, before: int) -> Option<int>
    decreases before,
{
    if before <= 0 || before > s.len() {
        None
    } else if p(s[before - 1]) {
        Some(before - 1)
    } else {
        last_where(s, p, before - 1)
    }
}

/// What is present in a list was present somewhere.
pub proof fn lemma_somes<A>(s: Seq<Option<A>>, i: int) -> (k: int)
    requires
        0 <= i < somes(s).len(),
    ensures
        0 <= k < s.len(),
        s[k] == Some(somes(s)[i]),
    decreases s.len(),
{
    if s.last() is Some && i == somes(s).len() - 1 {
        s.len() - 1
    } else {
        assert(somes(s)[i] == somes(s.drop_last())[i]);
        lemma_somes(s.drop_last(), i)
    }
}

/// What is present in two lists, one after the other, is what is present in each.
pub proof fn lemma_somes_parts<A>(a: Seq<Option<A>>, b: Seq<Option<A>>)
    ensures
        somes(a + b) == somes(a) + somes(b),
    decreases b.len(),
{
    if b.len() == 0 {
        assert(a + b == a);
        assert(somes(a) + somes(b) == somes(a));
    } else {
        assert((a + b).drop_last() == a + b.drop_last());
        assert((a + b).last() == b.last());
        lemma_somes_parts(a, b.drop_last());
        assert(somes(a + b) == somes(a) + somes(b));
    }
}

/// What `first_where` returns: the least such position, and `None` only where there is
/// none.
pub proof fn lemma_first_where<A>(s: Seq<A>, p: spec_fn(A) -> bool, from: int)
    requires
        0 <= from,
    ensures
        match first_where(s, p, from) {
            Some(i) => from <= i < s.len() && p(s[i]) && forall|j: int|
                from <= j < i ==> !p(#[trigger] s[j]),
            None => forall|j: int| from <= j < s.len() ==> !p(#[trigger] s[j]),
        },
    decreases s.len() - from,
{
    if from < s.len() && !p(s[from]) {
        lemma_first_where(s, p, from + 1);
    }
}

/// What `last_where` returns: the greatest such position, and `None` only where there is
/// none.
pub proof fn lemma_last_where<A>(s: Seq<A>, p: spec_fn(A) -> bool, before: int)
    requires
        0 <= before <= s.len(),
    ensures
        match last_where(s, p, before) {
            Some(i) => 0 <= i < before && p(s[i]) && forall|j: int|
                i < j < before ==> !p(#[trigger] s[j]),
            None => forall|j: int| 0 <= j < before ==> !p(#[trigger] s[j]),
        },
    decreases before,
{
    if before > 0 && !p(s[before - 1]) {
        lemma_last_where(s, p, before - 1);
    }
}

/// The items of a list, one after the other, with `sep` between them.
pub open spec fn joined(parts: Seq<Seq<char>>, sep: Seq<char>) -> Seq<char>
    decreases parts.len(),
{
    if parts.len() == 0 {
        Seq::empty()
    } else if parts.len() == 1 {
        parts[0]
    } else {
        parts[0] + sep + joined(parts.skip(1), sep)
    }
}

/// The items of a list, one after the other, with `sep` between them.
pub fn join_texts(parts: &Vec<String>, sep: &str) -> (r: String)
    ensures
        r@ == joined(texts(parts@), sep@),
{
    let mut out = String::new();
    let ghost all = texts(parts@);
    if parts.len() == 0 {
        assert(out@ == Seq::<char>::empty());
        return out;
    }
    push_text(&mut out, &parts[0]);
    let mut i: usize = 1;
    proof {
        assert(out@ == all[0]);
        assert(all.skip(0) == all);
        lemma_joined_step(all, sep@, 0);
    }
    while i < parts.len()
        invariant
            1 <= i <= parts@.len(),
            all == texts(parts@),
            out@ + joined_after(all, sep@, i as int) == joined(all, sep@),
        decreases parts@.len() - i,
    {
        let ghost before = out@;
        push_text(&mut out, sep);
        push_text(&mut out, &parts[i]);
        proof {
            lemma_joined_step(all, sep@, i as int);
            assert(before + (sep@ + (all[i as int] + joined_after(all, sep@, i + 1))) == before
                + sep@ + all[i as int] + joined_after(all, sep@, i + 1));
        }
        i += 1;
    }
    assert(out@ + Seq::<char>::empty() == out@);
    out
}

/// What follows the first `i` items of a joined list.
spec fn joined_after(parts: Seq<Seq<char>>, sep: Seq<char>, i: int) -> Seq<char> {
    if i < parts.len() {
        sep + joined(parts.skip(i), sep)
    } else {
        Seq::empty()
    }
}

/// A joined list begins with its first item.
proof fn lemma_joined_step(parts: Seq<Seq<char>>, sep: Seq<char>, i: int)
    requires
        0 <= i < parts.len(),
    ensures
        joined(parts.skip(i), sep) == parts[i] + joined_after(parts, sep, i + 1),
{
    let rest = parts.skip(i);
    assert(rest[0] == parts[i]);
    assert(rest.skip(1) == parts.skip(i + 1));
    if rest.len() == 1 {
        assert(parts[i] + Seq::<char>::empty() == parts[i]);
    } else {
        assert(parts[i] + sep + joined(rest.skip(1), sep) == parts[i] + (sep + joined(
            rest.skip(1),
            sep,
        )));
    }
}

/// `s` without the slashes at its end.
pub open spec fn without_end_slashes(s: Seq<char>) -> Seq<char>
    decreases s.len(),
{
    if s.len() > 0 && s.last() == '/' {
        without_end_slashes(s.drop_last())
    } else {
        s
    }
}

/// `s` without the slashes at its end.
pub fn cut_end_slashes(s: &str) -> (r: String)
    ensures
        r@ == without_end_slashes(s@),
{
    let chars = chars_of(s);
    let mut end: usize = chars.len();
    assert(chars@.take(end as int) == s@);
    while end > 0 && chars[end - 1] == '/'
        invariant
            end <= chars@.len(),
            without_end_slashes(chars@.take(end as int)) == without_end_slashes(s@),
        decreases end,
    {
        assert(chars@.take(end as int).drop_last() == chars@.take(end - 1));
        end -= 1;
    }
    proof {
        if end > 0 {
            assert(chars@.take(end as int).last() == chars@[end - 1]);
        }
    }
    let kept = &chars[0..end];
    assert(kept@ == chars@.take(end as int));
    text_of(kept)
}

/// The encoding of two texts, one after the other, is that of each.
pub proof fn lemma_encode_parts(a: Seq<char>, b: Seq<char>)
    ensures
        encode_utf8(a + b) == encode_utf8(a) + encode_utf8(b),
    decreases a.len(),
{
    if a.len() == 0 {
        assert(a + b == b);
        assert(encode_utf8(a) + encode_utf8(b) == encode_utf8(b));
    } else {
        assert((a + b).drop_first() == a.drop_first() + b);
        lemma_encode_parts(a.drop_first(), b);
        let head = encode_scalar(a[0] as u32);
        assert(head + (encode_utf8(a.drop_first()) + encode_utf8(b)) == head + encode_utf8(
            a.drop_first(),
        ) + encode_utf8(b));
    }
}

} // verus!
