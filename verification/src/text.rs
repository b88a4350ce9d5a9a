//! Text as sequences of characters: the string operations the rest of the library is built on.
use vstd::prelude::*;
use vstd::string::*;
use vstd::utf8::*;

verus! {

broadcast use vstd::string::group_string_axioms;

/// `String::push` appends one character.
pub assume_specification[ String::push ](s: &mut String, c: char)
    ensures
        final(s)@ == old(s)@.push(c),
;

/// The characters of `s`, in order.
pub fn chars_of(s: &str) -> (v: Vec<char>)
    ensures
        v@ == s@,
{
    let mut v: Vec<char> = Vec::new();
    for c in it: s.chars()
        invariant
            it.seq() == s@,
            v@ == s@.take(it.index()),
    {
        v.push(c);
        assert(s@.take(it.index() + 1) == s@.take(it.index()).push(c));
    }
    assert(s@.take(s@.len() as int) == s@);
    v
}

/// The text made of `chars[from..to]`.
pub fn text_of_range(chars: &[char], from: usize, to: usize) -> (s: String)
    requires
        from <= to <= chars@.len(),
    ensures
        s@ == chars@.subrange(from as int, to as int),
{
    let mut s = String::new();
    let mut i: usize = from;
    while i < to
        invariant
            from <= i <= to <= chars@.len(),
            s@ == chars@.subrange(from as int, i as int),
        decreases to - i,
    {
        s.push(chars[i]);
        assert(chars@.subrange(from as int, i + 1) == chars@.subrange(from as int, i as int).push(
            chars@[i as int],
        ));
        i += 1;
    }
    s
}

/// Whether two texts hold the same characters.
pub fn same(a: &str, b: &str) -> (r: bool)
    ensures
        r == (a@ == b@),
{
    let x = a.as_bytes();
    let y = b.as_bytes();
    proof {
        encode_utf8_decode_utf8(a@);
        encode_utf8_decode_utf8(b@);
    }
    if x.len() != y.len() {
        return false;
    }
    let mut i: usize = 0;
    while i < x.len()
        invariant
            i <= x@.len(),
            x@.len() == y@.len(),
            x@ == encode_utf8(a@),
            y@ == encode_utf8(b@),
            forall|j: int| 0 <= j < i ==> x@[j] == y@[j],
        decreases x@.len() - i,
    {
        if x[i] != y[i] {
            return false;
        }
        i += 1;
    }
    assert(x@ == y@);
    true
}

/// What `{:?}` of `std::fmt` writes for a text: the text in quotation marks, with what cannot be
/// printed escaped.
pub uninterp spec fn quoted(text: Seq<char>) -> Seq<char>;

/// `format!` with `{:?}`: the same text is always written the same way.
#[verifier::external_body]
pub(crate) fn quote(text: &str) -> (s: String)
    ensures
        s@ == quoted(text@),
{
    format!("{text:?}")
}

/// `a` followed by `b`.
pub fn cat2(a: &str, b: &str) -> (s: String)
    ensures
        s@ == a@ + b@,
{
    let mut s = a.to_owned();
    s.append(b);
    s
}

/// `a`, `b` and `c` in a row.
pub fn cat3(a: &str, b: &str, c: &str) -> (s: String)
    ensures
        s@ == a@ + b@ + c@,
{
    let mut s = cat2(a, b);
    s.append(c);
    s
}

/// `a`, `b`, `c` and `d` in a row.
pub fn cat4(a: &str, b: &str, c: &str, d: &str) -> (s: String)
    ensures
        s@ == a@ + b@ + c@ + d@,
{
    let mut s = cat3(a, b, c);
    s.append(d);
    s
}

/// `a`, `b`, `c`, `d` and `e` in a row.
pub fn cat5(a: &str, b: &str, c: &str, d: &str, e: &str) -> (s: String)
    ensures
        s@ == a@ + b@ + c@ + d@ + e@,
{
    let mut s = cat4(a, b, c, d);
    s.append(e);
    s
}

// ---------------------------------------------------------------------------
// Character classes

/// The characters with the Unicode property White_Space.
pub open spec fn is_white(c: char) -> bool {
    let n = c as u32;
    ||| 0x9 <= n <= 0xd
    ||| n == 0x20
    ||| n == 0x85
    ||| n == 0xa0
    ||| n == 0x1680
    ||| 0x2000 <= n <= 0x200a
    ||| n == 0x2028
    ||| n == 0x2029
    ||| n == 0x202f
    ||| n == 0x205f
    ||| n == 0x3000
}

/// Whether `c` is white space.
pub fn white(c: char) -> (r: bool)
    ensures
        r == is_white(c),
{
    let n: u32 = c as u32;
    (0x9 <= n && n <= 0xd) || n == 0x20 || n == 0x85 || n == 0xa0 || n == 0x1680 || (0x2000 <= n
        && n <= 0x200a) || n == 0x2028 || n == 0x2029 || n == 0x202f || n == 0x205f || n == 0x3000
}

pub open spec fn is_lower(c: char) -> bool {
    'a' as u32 <= c as u32 <= 'z' as u32
}

pub open spec fn is_upper(c: char) -> bool {
    'A' as u32 <= c as u32 <= 'Z' as u32
}

pub open spec fn is_digit(c: char) -> bool {
    '0' as u32 <= c as u32 <= '9' as u32
}

/// Whether `c` is an ASCII lower-case letter.
pub fn lower(c: char) -> (r: bool)
    ensures
        r == is_lower(c),
{
    let n: u32 = c as u32;
    97 <= n && n <= 122
}

/// Whether `c` is an ASCII upper-case letter.
pub fn upper(c: char) -> (r: bool)
    ensures
        r == is_upper(c),
{
    let n: u32 = c as u32;
    65 <= n && n <= 90
}

/// Whether `c` is an ASCII digit.
pub fn digit(c: char) -> (r: bool)
    ensures
        r == is_digit(c),
{
    let n: u32 = c as u32;
    48 <= n && n <= 57
}

/// `c` with an ASCII upper-case letter replaced by its lower-case one.
pub open spec fn ascii_lower_char(c: char) -> char {
    if is_upper(c) {
        (c as u32 + 32) as char
    } else {
        c
    }
}

/// `s` with every ASCII upper-case letter replaced by its lower-case one.
pub open spec fn ascii_lower(s: Seq<char>) -> Seq<char> {
    Seq::new(s.len(), |i: int| ascii_lower_char(s[i]))
}

fn lower_char(c: char) -> (r: char)
    ensures
        r == ascii_lower_char(c),
{
    if upper(c) {
        ((c as u8) + 32) as char
    } else {
        c
    }
}

/// The text with every ASCII upper-case letter replaced by its lower-case one.
pub fn to_ascii_lowercase(s: &str) -> (r: String)
    ensures
        r@ == ascii_lower(s@),
{
    let v = chars_of(s);
    let mut r = String::new();
    let mut i: usize = 0;
    while i < v.len()
        invariant
            i <= v@.len(),
            v@ == s@,
            r@ == ascii_lower(s@).take(i as int),
        decreases v@.len() - i,
    {
        let c = lower_char(v[i]);
        r.push(c);
        assert(ascii_lower(s@).take(i + 1) == ascii_lower(s@).take(i as int).push(c));
        i += 1;
    }
    assert(ascii_lower(s@).take(s@.len() as int) == ascii_lower(s@));
    r
}

/// Whether two texts are equal once ASCII letters are lower-cased.
pub fn same_ignoring_ascii_case(a: &str, b: &str) -> (r: bool)
    ensures
        r == (ascii_lower(a@) == ascii_lower(b@)),
{
    let x = to_ascii_lowercase(a);
    let y = to_ascii_lowercase(b);
    same(&x, &y)
}

// ---------------------------------------------------------------------------
// Trimming

/// `s` without the longest prefix whose characters all satisfy `p`.
pub open spec fn strip_front(s: Seq<char>, p: spec_fn(char) -> bool) -> Seq<char>
    decreases s.len(),
{
    if s.len() > 0 && p(s[0]) {
        strip_front(s.drop_first(), p)
    } else {
        s
    }
}

/// `s` without the longest suffix whose characters all satisfy `p`.
pub open spec fn strip_back(s: Seq<char>, p: spec_fn(char) -> bool) -> Seq<char>
    decreases s.len(),
{
    if s.len() > 0 && p(s.last()) {
        strip_back(s.drop_last(), p)
    } else {
        s
    }
}

/// `s` without white space at its end.
pub open spec fn trim_back(s: Seq<char>) -> Seq<char> {
    strip_back(s, |c: char| is_white(c))
}

/// `s` without white space at its start.
pub open spec fn trim_front(s: Seq<char>) -> Seq<char> {
    strip_front(s, |c: char| is_white(c))
}

/// `s` without white space at either end.
pub open spec fn trimmed(s: Seq<char>) -> Seq<char> {
    trim_back(trim_front(s))
}

proof fn lemma_strip_front_at(s: Seq<char>, p: spec_fn(char) -> bool, n: int)
    requires
        0 <= n <= s.len(),
        forall|j: int| 0 <= j < n ==> p(#[trigger] s[j]),
        n < s.len() ==> !p(s[n]),
    ensures
        strip_front(s, p) == s.skip(n),
    decreases n,
{
    if n > 0 {
        assert(p(s[0]));
        let t = s.drop_first();
        assert forall|j: int| 0 <= j < n - 1 implies p(#[trigger] t[j]) by {
            assert(t[j] == s[j + 1]);
        }
        lemma_strip_front_at(t, p, n - 1);
        assert(t.skip(n - 1) == s.skip(n));
    } else {
        assert(s.skip(0) == s);
    }
}

/// Where the characters that `p` accepts end at the back.
pub proof fn lemma_strip_back_at(s: Seq<char>, p: spec_fn(char) -> bool, n: int)
    requires
        0 <= n <= s.len(),
        forall|j: int| n <= j < s.len() ==> p(#[trigger] s[j]),
        n > 0 ==> !p(s[n - 1]),
    ensures
        strip_back(s, p) == s.take(n),
    decreases s.len() - n,
{
    if n < s.len() {
        assert(p(s[s.len() - 1]));
        let t = s.drop_last();
        lemma_strip_back_at(t, p, n);
        assert(t.take(n) == s.take(n));
    } else {
        assert(s.take(n) == s);
    }
}

/// The text without white space at its end.
pub fn trim_end<'a>(s: &'a str) -> (r: &'a str)
    ensures
        r@ == trim_back(s@),
{
    let v = chars_of(s);
    let mut n: usize = v.len();
    while n > 0 && white(v[n - 1])
        invariant
            n <= v@.len(),
            v@ == s@,
            forall|j: int| n <= j < s@.len() ==> is_white(#[trigger] s@[j]),
        decreases n,
    {
        n -= 1;
    }
    proof {
        lemma_strip_back_at(s@, |c: char| is_white(c), n as int);
    }
    s.substring_char(0, n)
}

/// The text without white space at its start.
pub fn trim_start<'a>(s: &'a str) -> (r: &'a str)
    ensures
        r@ == trim_front(s@),
{
    let v = chars_of(s);
    let mut n: usize = 0;
    while n < v.len() && white(v[n])
        invariant
            n <= v@.len(),
            v@ == s@,
            forall|j: int| 0 <= j < n ==> is_white(#[trigger] s@[j]),
        decreases v@.len() - n,
    {
        n += 1;
    }
    proof {
        lemma_strip_front_at(s@, |c: char| is_white(c), n as int);
    }
    s.substring_char(n, v.len())
}

/// The text without white space at either end.
pub fn trim<'a>(s: &'a str) -> (r: &'a str)
    ensures
        r@ == trimmed(s@),
{
    trim_end(trim_start(s))
}

/// The text without the characters `a` and `b` at its end.
pub fn trim_end_of<'a>(s: &'a str, a: char, b: char) -> (r: &'a str)
    ensures
        r@ == strip_back(s@, |c: char| c == a || c == b),
{
    let v = chars_of(s);
    let mut n: usize = v.len();
    while n > 0 && (v[n - 1] == a || v[n - 1] == b)
        invariant
            n <= v@.len(),
            v@ == s@,
            forall|j: int| n <= j < s@.len() ==> #[trigger] s@[j] == a || s@[j] == b,
        decreases n,
    {
        n -= 1;
    }
    proof {
        lemma_strip_back_at(s@, |c: char| c == a || c == b, n as int);
    }
    s.substring_char(0, n)
}

/// The text without the character `a` at its start.
pub fn trim_start_of<'a>(s: &'a str, a: char) -> (r: &'a str)
    ensures
        r@ == strip_front(s@, |c: char| c == a),
{
    let v = chars_of(s);
    let mut n: usize = 0;
    while n < v.len() && v[n] == a
        invariant
            n <= v@.len(),
            v@ == s@,
            forall|j: int| 0 <= j < n ==> #[trigger] s@[j] == a,
        decreases v@.len() - n,
    {
        n += 1;
    }
    proof {
        lemma_strip_front_at(s@, |c: char| c == a, n as int);
    }
    s.substring_char(n, v.len())
}

// ---------------------------------------------------------------------------
// Prefixes, suffixes and searching

/// Whether `pat` stands in `s` at position `i`.
pub open spec fn occurs_at(s: Seq<char>, pat: Seq<char>, i: int) -> bool {
    0 <= i && i + pat.len() <= s.len() && s.subrange(i, i + pat.len()) == pat
}

pub open spec fn begins_with(s: Seq<char>, pat: Seq<char>) -> bool {
    occurs_at(s, pat, 0)
}

pub open spec fn finishes_with(s: Seq<char>, pat: Seq<char>) -> bool {
    occurs_at(s, pat, s.len() - pat.len())
}

pub open spec fn contains_text(s: Seq<char>, pat: Seq<char>) -> bool {
    exists|i: int| occurs_at(s, pat, i)
}

/// Whether `pat` stands in `s` at position `i`.
pub fn matches_at(s: &[char], pat: &[char], i: usize) -> (r: bool)
    ensures
        r == occurs_at(s@, pat@, i as int),
{
    if i > s.len() || pat.len() > s.len() - i {
        return false;
    }
    let n: usize = s.len();
    let mut k: usize = 0;
    while k < pat.len()
        invariant
            k <= pat@.len(),
            i + pat@.len() <= s@.len() == n,
            forall|j: int| 0 <= j < k ==> s@[i + j] == pat@[j],
        decreases pat@.len() - k,
    {
        if s[i + k] != pat[k] {
            assert(s@.subrange(i as int, i + pat@.len())[k as int] != pat@[k as int]);
            return false;
        }
        k += 1;
    }
    assert(s@.subrange(i as int, i + pat@.len()) == pat@);
    true
}

/// Whether the text begins with `pat`.
pub fn starts_with(s: &str, pat: &str) -> (r: bool)
    ensures
        r == begins_with(s@, pat@),
{
    matches_at(&chars_of(s), &chars_of(pat), 0)
}

/// Whether the text ends with `pat`.
pub fn ends_with(s: &str, pat: &str) -> (r: bool)
    ensures
        r == finishes_with(s@, pat@),
{
    let v = chars_of(s);
    let p = chars_of(pat);
    if p.len() > v.len() {
        return false;
    }
    matches_at(&v, &p, v.len() - p.len())
}

/// The text without the prefix `pat`, where it has one.
pub fn strip_prefix<'a>(s: &'a str, pat: &str) -> (r: Option<&'a str>)
    ensures
        r is Some == begins_with(s@, pat@),
        r matches Some(t) ==> t@ == s@.skip(pat@.len() as int),
{
    let v = chars_of(s);
    let p = chars_of(pat);
    if matches_at(&v, &p, 0) {
        Some(s.substring_char(p.len(), v.len()))
    } else {
        None
    }
}

/// The text without the suffix `pat`, where it has one.
pub fn strip_suffix<'a>(s: &'a str, pat: &str) -> (r: Option<&'a str>)
    ensures
        r is Some == finishes_with(s@, pat@),
        r matches Some(t) ==> t@ == s@.take(s@.len() - pat@.len()),
{
    let v = chars_of(s);
    let p = chars_of(pat);
    if p.len() <= v.len() && matches_at(&v, &p, v.len() - p.len()) {
        Some(s.substring_char(0, v.len() - p.len()))
    } else {
        None
    }
}

/// Whether `pat` stands anywhere in the text.
pub fn contains(s: &str, pat: &str) -> (r: bool)
    ensures
        r == contains_text(s@, pat@),
{
    let v = chars_of(s);
    let p = chars_of(pat);
    let mut i: usize = 0;
    while i < v.len()
        invariant
            i <= v@.len(),
            v@ == s@,
            p@ == pat@,
            forall|j: int| 0 <= j < i ==> !occurs_at(s@, pat@, j),
        decreases v@.len() - i,
    {
        if matches_at(&v, &p, i) {
            assert(occurs_at(s@, pat@, i as int));
            return true;
        }
        i += 1;
    }
    let last = matches_at(&v, &p, i);
    proof {
        if last {
            assert(occurs_at(s@, pat@, i as int));
        } else if exists|j: int| occurs_at(s@, pat@, j) {
            let j = choose|j: int| occurs_at(s@, pat@, j);
            assert(j == i);
        }
    }
    last
}

// ---------------------------------------------------------------------------
// Cutting

/// The first `n` characters of `s`, or all of them where there are fewer.
pub open spec fn first_chars(s: Seq<char>, n: int) -> Seq<char> {
    if s.len() <= n {
        s
    } else {
        s.take(n)
    }
}

/// The first `n` characters of the text, or all of them where there are fewer.
pub fn take_chars<'a>(s: &'a str, n: usize) -> (r: &'a str)
    ensures
        r@ == first_chars(s@, n as int),
{
    let len: usize = s.unicode_len();
    if len <= n {
        s
    } else {
        s.substring_char(0, n)
    }
}

/// The position of the first `c` in `s` at or after `from`; the length of `s` where there is none.
pub open spec fn position_from(s: Seq<char>, c: char, from: int) -> int
    decreases s.len() - from,
{
    if from >= s.len() {
        s.len() as int
    } else if s[from] == c {
        from
    } else {
        position_from(s, c, from + 1)
    }
}

/// The position of the first `c` in `s` at or after `from`; the length of `s` where there is none.
pub fn find_from(s: &[char], c: char, from: usize) -> (r: usize)
    requires
        from <= s@.len(),
    ensures
        r == position_from(s@, c, from as int),
        from <= r <= s@.len(),
        forall|j: int| from <= j < r ==> s@[j] != c,
        r < s@.len() ==> s@[r as int] == c,
{
    let mut i: usize = from;
    while i < s.len() && s[i] != c
        invariant
            from <= i <= s@.len(),
            position_from(s@, c, from as int) == position_from(s@, c, i as int),
            forall|j: int| from <= j < i ==> s@[j] != c,
        decreases s@.len() - i,
    {
        i += 1;
    }
    i
}

/// The part of `s` before the first `c`, or all of it.
pub open spec fn before_first(s: Seq<char>, c: char) -> Seq<char> {
    s.take(position_from(s, c, 0))
}

/// The part of the text before the first `c`, or all of it.
pub fn before<'a>(s: &'a str, c: char) -> (r: &'a str)
    ensures
        r@ == before_first(s@, c),
{
    let v = chars_of(s);
    let n: usize = find_from(&v, c, 0);
    s.substring_char(0, n)
}

/// `line` without a carriage return at its end.
pub open spec fn without_return(line: Seq<char>) -> Seq<char> {
    if line.len() > 0 && line.last() == '\r' {
        line.drop_last()
    } else {
        line
    }
}

/// The lines of `s` from position `from` on: each ends before a line feed, or before a carriage
/// return and a line feed; what follows the last line feed is a line where it is not empty.
pub open spec fn lines_from(s: Seq<char>, from: int) -> Seq<Seq<char>>
    decreases s.len() - from,
    when 0 <= from
    via lines_from_decreases
{
    if from >= s.len() {
        Seq::empty()
    } else {
        let end = position_from(s, '\n', from);
        if end >= s.len() {
            seq![s.subrange(from, s.len() as int)]
        } else {
            seq![without_return(s.subrange(from, end))] + lines_from(s, end + 1)
        }
    }
}

#[via_fn]
proof fn lines_from_decreases(s: Seq<char>, from: int) {
    lemma_position_from(s, '\n', from);
}

/// Where the search for a character from `from` on ends.
pub proof fn lemma_position_from(s: Seq<char>, c: char, from: int)
    requires
        0 <= from,
    ensures
        from <= s.len() ==> from <= position_from(s, c, from) <= s.len(),
        forall|j: int| from <= j < position_from(s, c, from) && j < s.len() ==> s[j] != c,
        position_from(s, c, from) < s.len() ==> s[position_from(s, c, from)] == c,
    decreases s.len() - from,
{
    if from < s.len() && s[from] != c {
        lemma_position_from(s, c, from + 1);
    }
}

/// The lines of `s`.
pub open spec fn lines(s: Seq<char>) -> Seq<Seq<char>> {
    lines_from(s, 0)
}

/// The views of a list of texts.
pub open spec fn views(v: Seq<String>) -> Seq<Seq<char>> {
    Seq::new(v.len(), |i: int| v[i]@)
}

/// The lines of the text.
pub fn lines_of(s: &str) -> (r: Vec<String>)
    ensures
        views(r@) == lines(s@),
{
    let v = chars_of(s);
    let mut r: Vec<String> = Vec::new();
    let mut from: usize = 0;
    assert(views(r@) + lines_from(s@, 0) == lines(s@));
    while from < v.len()
        invariant
            from <= v@.len(),
            v@ == s@,
            views(r@) + lines_from(s@, from as int) == lines(s@),
        decreases v@.len() - from,
    {
        let ghost before_push = views(r@);
        let end: usize = find_from(&v, '\n', from);
        if end == v.len() {
            let line = text_of_range(&v, from, end);
            r.push(line);
            assert(views(r@) == before_push.push(line@));
            assert(before_push + seq![line@] == before_push.push(line@));
            assert(lines_from(s@, end as int) == Seq::<Seq<char>>::empty());
            from = end;
        } else {
            let cut: usize = if end > from && v[end - 1] == '\r' {
                end - 1
            } else {
                end
            };
            let line = text_of_range(&v, from, cut);
            r.push(line);
            assert(line@ == without_return(s@.subrange(from as int, end as int)));
            assert(views(r@) == before_push.push(line@));
            assert(before_push + (seq![line@] + lines_from(s@, end + 1)) == before_push.push(line@)
                + lines_from(s@, end + 1));
            from = end + 1;
        }
    }
    assert(lines_from(s@, from as int) == Seq::<Seq<char>>::empty());
    assert(views(r@) + Seq::<Seq<char>>::empty() == views(r@));
    r
}

/// What `std::str::Utf8Error` says of bytes that are not valid UTF-8.
pub uninterp spec fn utf8_fault(bytes: Seq<u8>) -> Seq<char>;

/// `str::from_utf8`: the text that bytes encode, where they are valid UTF-8, and else what is wrong
/// with them, which depends on the bytes alone.
#[verifier::external_body]
pub(crate) fn utf8_text(bytes: &[u8]) -> (r: Result<String, String>)
    ensures
        r is Ok == vstd::utf8::valid_utf8(bytes@),
        r matches Ok(s) ==> s@ == vstd::utf8::decode_utf8(bytes@),
        r matches Err(e) ==> e@ == utf8_fault(bytes@),
{
    match std::str::from_utf8(bytes) {
        Ok(text) => Ok(text.to_owned()),
        Err(error) => Err(error.to_string()),
    }
}

/// The pieces of `s` from position `from` on, between the occurrences of `c`.
pub open spec fn pieces_from(s: Seq<char>, c: char, from: int) -> Seq<Seq<char>>
    decreases s.len() + 1 - from,
    when 0 <= from
    via pieces_from_decreases
{
    let end = position_from(s, c, from);
    if from >= s.len() || end >= s.len() {
        seq![s.skip(from)]
    } else {
        seq![s.subrange(from, end)] + pieces_from(s, c, end + 1)
    }
}

#[via_fn]
proof fn pieces_from_decreases(s: Seq<char>, c: char, from: int) {
    lemma_position_from(s, c, from);
}

/// The pieces of `s` between the occurrences of `c`.
pub open spec fn pieces(s: Seq<char>, c: char) -> Seq<Seq<char>> {
    pieces_from(s, c, 0)
}

/// The pieces of the text between the occurrences of `c`.
pub fn split(s: &str, c: char) -> (r: Vec<String>)
    ensures
        views(r@) == pieces(s@, c),
        r@.len() > 0,
{
    let v = chars_of(s);
    let mut r: Vec<String> = Vec::new();
    let mut from: usize = 0;
    let mut end: usize = find_from(&v, c, 0);
    assert(views(r@) + pieces_from(s@, c, 0) == pieces(s@, c));
    while end < v.len()
        invariant
            from <= end <= v@.len(),
            v@ == s@,
            end == position_from(s@, c, from as int),
            views(r@) + pieces_from(s@, c, from as int) == pieces(s@, c),
        decreases v@.len() - end,
    {
        let ghost before_push = views(r@);
        let piece = text_of_range(&v, from, end);
        let ghost p = piece@;
        r.push(piece);
        assert(views(r@) == before_push.push(p));
        assert(before_push + (seq![p] + pieces_from(s@, c, end + 1)) == before_push.push(p)
            + pieces_from(s@, c, end + 1));
        from = end + 1;
        end = find_from(&v, c, from);
    }
    let ghost before_push = views(r@);
    let piece = text_of_range(&v, from, v.len());
    let ghost p = piece@;
    assert(p == s@.skip(from as int));
    r.push(piece);
    assert(views(r@) == before_push.push(p));
    assert(before_push + seq![p] == before_push.push(p));
    r
}

/// The first position at or after `from` that is white space, or that is not, as `white` says.
pub open spec fn white_from(s: Seq<char>, white: bool, from: int) -> int
    decreases s.len() - from,
{
    if from >= s.len() {
        s.len() as int
    } else if is_white(s[from]) == white {
        from
    } else {
        white_from(s, white, from + 1)
    }
}

proof fn lemma_white_from(s: Seq<char>, white: bool, from: int)
    requires
        0 <= from <= s.len(),
    ensures
        from <= white_from(s, white, from) <= s.len(),
        white_from(s, white, from) < s.len() ==> is_white(s[white_from(s, white, from)]) == white,
    decreases s.len() - from,
{
    if from < s.len() && is_white(s[from]) != white {
        lemma_white_from(s, white, from + 1);
    }
}

/// The words of `s` from position `from` on: the runs of characters that are not white space.
pub open spec fn words_from(s: Seq<char>, from: int) -> Seq<Seq<char>>
    decreases s.len() - from,
    when 0 <= from <= s.len()
    via words_from_decreases
{
    let start = white_from(s, false, from);
    if start >= s.len() {
        Seq::empty()
    } else {
        let end = white_from(s, true, start);
        seq![s.subrange(start, end)] + words_from(s, end)
    }
}

#[via_fn]
proof fn words_from_decreases(s: Seq<char>, from: int) {
    lemma_white_from(s, false, from);
    let start = white_from(s, false, from);
    if start < s.len() {
        assert(!is_white(s[start]));
        lemma_white_from(s, true, start + 1);
    }
}

/// The words of `s`.
pub open spec fn words(s: Seq<char>) -> Seq<Seq<char>> {
    words_from(s, 0)
}

fn find_white(s: &[char], wanted: bool, from: usize) -> (r: usize)
    requires
        from <= s@.len(),
    ensures
        r == white_from(s@, wanted, from as int),
        from <= r <= s@.len(),
        r < s@.len() ==> is_white(s@[r as int]) == wanted,
{
    let mut i: usize = from;
    while i < s.len() && white(s[i]) != wanted
        invariant
            from <= i <= s@.len(),
            white_from(s@, wanted, from as int) == white_from(s@, wanted, i as int),
        decreases s@.len() - i,
    {
        i += 1;
    }
    i
}

/// The words of the text.
pub fn words_of(s: &str) -> (r: Vec<String>)
    ensures
        views(r@) == words(s@),
{
    let v = chars_of(s);
    let mut r = no_texts();
    let mut start: usize = find_white(&v, false, 0);
    let ghost mut from: int = 0;
    assert(views(r@) + words_from(s@, 0) == words(s@));
    while start < v.len()
        invariant
            v@ == s@,
            0 <= from <= start <= v@.len(),
            start == white_from(s@, false, from),
            start < v@.len() ==> !is_white(s@[start as int]),
            views(r@) + words_from(s@, from) == words(s@),
        decreases v@.len() - start,
    {
        let end: usize = find_white(&v, true, start);
        let word = text_of_range(&v, start, end);
        let ghost before = views(r@);
        let ghost w = word@;
        r = with(r, &word);
        assert(before + (seq![w] + words_from(s@, end as int)) == before.push(w) + words_from(
            s@,
            end as int,
        ));
        proof {
            from = end as int;
        }
        start = find_white(&v, false, end);
    }
    assert(words_from(s@, from) == Seq::<Seq<char>>::empty());
    assert(views(r@) + Seq::<Seq<char>>::empty() == views(r@));
    r
}

/// Texts with `between` between them.
pub open spec fn joined(v: Seq<Seq<char>>, between: Seq<char>) -> Seq<char>
    decreases v.len(),
{
    if v.len() == 0 {
        Seq::empty()
    } else if v.len() == 1 {
        v[0]
    } else {
        joined(v.drop_last(), between) + between + v.last()
    }
}

/// Texts with `between` between them.
pub fn join(v: &Vec<String>, between: &str) -> (s: String)
    ensures
        s@ == joined(views(v@), between@),
{
    let ghost all = views(v@);
    if v.len() == 0 {
        return String::new();
    }
    let mut s = v[0].clone();
    let mut i: usize = 1;
    assert(all.take(1).len() == 1 && all.take(1)[0] == all[0]);
    while i < v.len()
        invariant
            1 <= i <= v@.len(),
            all == views(v@),
            s@ == joined(all.take(i as int), between@),
        decreases v@.len() - i,
    {
        s.append(between);
        s.append(v[i].as_str());
        assert(all.take(i + 1).drop_last() == all.take(i as int));
        assert(all.take(i + 1).last() == v@[i as int]@);
        i += 1;
    }
    assert(all.take(all.len() as int) == all);
    s
}

/// A list without texts.
pub fn no_texts() -> (r: Vec<String>)
    ensures
        views(r@) == Seq::<Seq<char>>::empty(),
{
    let r: Vec<String> = Vec::new();
    assert(views(r@) == Seq::<Seq<char>>::empty());
    r
}

/// The list with one more text behind the others.
pub fn with(list: Vec<String>, s: &str) -> (r: Vec<String>)
    ensures
        views(r@) == views(list@).push(s@),
{
    let mut r = list;
    let ghost before = views(r@);
    r.push(s.to_owned());
    assert(views(r@) == before.push(s@));
    r
}

/// `s`, every character put in place by the text that `f` gives for it.
pub open spec fn spread(s: Seq<char>, f: spec_fn(char) -> Seq<char>) -> Seq<char>
    decreases s.len(),
{
    if s.len() == 0 {
        Seq::empty()
    } else {
        spread(s.drop_last(), f) + f(s.last())
    }
}

// ---------------------------------------------------------------------------
// Numbers

/// The decimal digit for `d`.
pub open spec fn digit_char(d: nat) -> char {
    ('0' as u32 + d) as char
}

/// `n` in decimal.
pub open spec fn decimal(n: nat) -> Seq<char>
    decreases n,
{
    if n < 10 {
        seq![digit_char(n)]
    } else {
        decimal(n / 10).push(digit_char(n % 10))
    }
}

fn one_digit(d: u8) -> (c: char)
    requires
        d < 10,
    ensures
        c == digit_char(d as nat),
{
    (48 + d) as char
}

/// The number in decimal.
pub fn to_decimal(n: u64) -> (s: String)
    ensures
        s@ == decimal(n as nat),
    decreases n,
{
    if n < 10 {
        let mut s = String::new();
        s.push(one_digit(n as u8));
        assert(s@ == seq![digit_char(n as nat)]);
        s
    } else {
        let mut s = to_decimal(n / 10);
        s.push(one_digit((n % 10) as u8));
        s
    }
}

// ---------------------------------------------------------------------------
// Order

/// Whether `a` comes before `b` when texts are compared character by character.
pub open spec fn text_less(a: Seq<char>, b: Seq<char>) -> bool
    decreases a.len(),
{
    if b.len() == 0 {
        false
    } else if a.len() == 0 {
        true
    } else if a[0] != b[0] {
        (a[0] as int) < (b[0] as int)
    } else {
        text_less(a.drop_first(), b.drop_first())
    }
}

proof fn lemma_text_less_skip(a: Seq<char>, b: Seq<char>, n: int)
    requires
        0 <= n <= a.len(),
        n <= b.len(),
        forall|j: int| 0 <= j < n ==> a[j] == b[j],
    ensures
        text_less(a, b) == text_less(a.skip(n), b.skip(n)),
    decreases n,
{
    if n > 0 {
        lemma_text_less_skip(a.drop_first(), b.drop_first(), n - 1);
        assert(a.drop_first().skip(n - 1) == a.skip(n));
        assert(b.drop_first().skip(n - 1) == b.skip(n));
    } else {
        assert(a.skip(0) == a);
        assert(b.skip(0) == b);
    }
}

fn char_before(a: char, b: char) -> (r: bool)
    ensures
        r == ((a as int) < (b as int)),
{
    (a as u32) < (b as u32)
}

/// Whether `a` comes before `b`.
pub fn less(a: &str, b: &str) -> (r: bool)
    ensures
        r == text_less(a@, b@),
{
    let x = chars_of(a);
    let y = chars_of(b);
    let mut i: usize = 0;
    while i < x.len() && i < y.len() && x[i] == y[i]
        invariant
            x@ == a@,
            y@ == b@,
            i <= x@.len(),
            i <= y@.len(),
            forall|j: int| 0 <= j < i ==> x@[j] == y@[j],
        decreases x@.len() - i,
    {
        i += 1;
    }
    proof {
        lemma_text_less_skip(a@, b@, i as int);
    }
    if i >= y.len() {
        false
    } else if i >= x.len() {
        true
    } else {
        char_before(x[i], y[i])
    }
}

/// Two different texts are ordered one way or the other.
pub proof fn text_order_is_total(a: Seq<char>, b: Seq<char>)
    ensures
        a != b ==> text_less(a, b) || text_less(b, a),
        !(text_less(a, b) && text_less(b, a)),
        !text_less(a, a),
    decreases a.len(),
{
    if a.len() > 0 && b.len() > 0 && a[0] == b[0] {
        text_order_is_total(a.drop_first(), b.drop_first());
        if a.drop_first() == b.drop_first() {
            assert(a == seq![a[0]] + a.drop_first());
            assert(b == seq![b[0]] + b.drop_first());
        }
    }
    if a.len() == 0 && b.len() == 0 {
        assert(a == b);
    }
    if a.len() > 0 {
        text_order_is_total(a.drop_first(), a.drop_first());
    }
}

/// The order of texts is transitive.
pub proof fn text_order_is_transitive(a: Seq<char>, b: Seq<char>, c: Seq<char>)
    requires
        text_less(a, b),
        text_less(b, c),
    ensures
        text_less(a, c),
    decreases a.len(),
{
    if a.len() > 0 && a[0] == b[0] && b[0] == c[0] {
        text_order_is_transitive(a.drop_first(), b.drop_first(), c.drop_first());
    }
}

// ---------------------------------------------------------------------------
// Taking texts apart and putting them together

/// Of the ASCII characters, the space and the controls from the tab to the carriage return are white
/// space.
pub proof fn ascii_white_space(c: char)
    requires
        (c as u32) < 128,
    ensures
        is_white(c) <==> c == ' ' || 9 <= c as u32 <= 13,
{
}

proof fn lemma_front_stripped(s: Seq<char>, p: spec_fn(char) -> bool) -> (n: int)
    ensures
        0 <= n <= s.len(),
        strip_front(s, p) == s.skip(n),
        forall|k: int| 0 <= k < n ==> p(#[trigger] s[k]),
        n < s.len() ==> !p(s[n]),
    decreases s.len(),
{
    if s.len() > 0 && p(s[0]) {
        let m = lemma_front_stripped(s.drop_first(), p);
        assert(s.drop_first().skip(m) == s.skip(m + 1));
        assert forall|k: int| 0 <= k < m + 1 implies p(#[trigger] s[k]) by {
            if k > 0 {
                assert(s[k] == s.drop_first()[k - 1]);
            }
        }
        m + 1
    } else {
        assert(s.skip(0) == s);
        0
    }
}

/// Where what is stripped off the back begins.
pub proof fn lemma_back_stripped(s: Seq<char>, p: spec_fn(char) -> bool) -> (n: int)
    ensures
        0 <= n <= s.len(),
        strip_back(s, p) == s.take(n),
        forall|k: int| n <= k < s.len() ==> p(#[trigger] s[k]),
        n > 0 ==> !p(s[n - 1]),
    decreases s.len(),
{
    if s.len() > 0 && p(s.last()) {
        let m = lemma_back_stripped(s.drop_last(), p);
        assert(s.drop_last().take(m) == s.take(m));
        assert forall|k: int| m <= k < s.len() implies p(#[trigger] s[k]) by {
            if k < s.len() - 1 {
                assert(s[k] == s.drop_last()[k]);
            }
        }
        m
    } else {
        assert(s.take(s.len() as int) == s);
        s.len() as int
    }
}

/// Trimming takes away the white space at both ends, all of it, and nothing else.
pub proof fn trimming_takes_the_white_space_at_the_ends(s: Seq<char>)
    ensures
        exists|i: int, j: int|
            {
                &&& 0 <= i <= j <= s.len()
                &&& trimmed(s) == #[trigger] s.subrange(i, j)
                &&& forall|k: int| 0 <= k < i || j <= k < s.len() ==> is_white(#[trigger] s[k])
                &&& i < j ==> !is_white(s[i]) && !is_white(s[j - 1])
            },
{
    let p = |c: char| is_white(c);
    let i = lemma_front_stripped(s, p);
    let rest = s.skip(i);
    let m = lemma_back_stripped(rest, p);
    let j = i + m;
    assert(rest.take(m) == s.subrange(i, j));
    assert forall|k: int| 0 <= k < i || j <= k < s.len() implies is_white(#[trigger] s[k]) by {
        if k < i {
            assert(p(s[k]));
        } else {
            assert(s[k] == rest[k - i]);
            assert(p(rest[k - i]));
        }
    }
    if i < j {
        assert(rest[m - 1] == s[j - 1]);
        assert(!p(s[i]));
        assert(!p(rest[m - 1]));
    }
}

/// Text without white space at its ends stays as it is when it is trimmed.
pub proof fn trimmed_text_stays(s: Seq<char>)
    requires
        s.len() > 0 ==> !is_white(s[0]) && !is_white(s.last()),
    ensures
        trimmed(s) == s,
{
    if s.len() > 0 {
        assert(trim_front(s) == s);
    }
}

proof fn lemma_position_shift(s: Seq<char>, c: char, from: int, at: int)
    requires
        0 <= from <= at <= s.len(),
    ensures
        position_from(s.skip(from), c, at - from) == position_from(s, c, at) - from,
    decreases s.len() - at,
{
    if at < s.len() {
        assert(s.skip(from)[at - from] == s[at]);
        if s[at] != c {
            lemma_position_shift(s, c, from, at + 1);
        }
    }
}

proof fn lemma_lines_shift(s: Seq<char>, from: int, at: int)
    requires
        0 <= from <= at <= s.len(),
    ensures
        lines_from(s.skip(from), at - from) == lines_from(s, at),
    decreases s.len() - at,
{
    if at < s.len() {
        lemma_position_shift(s, '\n', from, at);
        lemma_position_from(s, '\n', at);
        let end = position_from(s, '\n', at);
        if end >= s.len() {
            assert(s.skip(from).subrange(at - from, s.len() - from) == s.subrange(
                at,
                s.len() as int,
            ));
        } else {
            assert(s.skip(from).subrange(at - from, end - from) == s.subrange(at, end));
            lemma_lines_shift(s, from, end + 1);
        }
    }
}

proof fn lemma_first_at(s: Seq<char>, c: char, from: int, at: int)
    requires
        0 <= from <= at <= s.len(),
        forall|k: int| from <= k < at ==> s[k] != c,
        at < s.len() ==> s[at] == c,
    ensures
        position_from(s, c, from) == at,
    decreases at - from,
{
    if from < at {
        lemma_first_at(s, c, from + 1, at);
    }
}

/// A line feed, or a carriage return and a line feed, ends a line and is no part of it; what follows
/// the last of them is a line where it is not empty.
pub proof fn lines_end_at_line_feeds(line: Seq<char>, rest: Seq<char>)
    requires
        !line.contains('\n'),
    ensures
        line.len() == 0 || line.last() != '\r' ==> lines(line.push('\n') + rest) == seq![line]
            + lines(rest),
        lines(line.push('\r').push('\n') + rest) == seq![line] + lines(rest),
        line.len() > 0 ==> lines(line) == seq![line],
        lines(Seq::empty()).len() == 0,
{
    let a = line.push('\n') + rest;
    assert forall|k: int| 0 <= k < line.len() implies a[k] != '\n' by {
        assert(a[k] == line[k]);
    }
    lemma_first_at(a, '\n', 0, line.len() as int);
    assert(a.subrange(0, line.len() as int) == line);
    lemma_lines_shift(a, line.len() as int + 1, line.len() as int + 1);
    assert(a.skip(line.len() as int + 1) == rest);
    let r = line.push('\r');
    let b = r.push('\n') + rest;
    assert forall|k: int| 0 <= k < r.len() implies b[k] != '\n' by {
        assert(b[k] == r[k]);
        if k < line.len() {
            assert(r[k] == line[k]);
        }
    }
    lemma_first_at(b, '\n', 0, r.len() as int);
    assert(b.subrange(0, r.len() as int) == r);
    assert(r.drop_last() == line);
    lemma_lines_shift(b, r.len() as int + 1, r.len() as int + 1);
    assert(b.skip(r.len() as int + 1) == rest);
    if line.len() > 0 {
        assert forall|k: int| 0 <= k < line.len() implies line[k] != '\n' by {
            assert(line.contains(line[k]));
        }
        lemma_first_at(line, '\n', 0, line.len() as int);
        assert(line.subrange(0, line.len() as int) == line);
    }
}

proof fn lemma_pieces_shift(s: Seq<char>, c: char, from: int, at: int)
    requires
        0 <= from <= at <= s.len(),
    ensures
        pieces_from(s.skip(from), c, at - from) == pieces_from(s, c, at),
    decreases s.len() - at,
{
    lemma_position_shift(s, c, from, at);
    lemma_position_from(s, c, at);
    let end = position_from(s, c, at);
    if at >= s.len() || end >= s.len() {
        assert(s.skip(from).skip(at - from) == s.skip(at));
    } else {
        assert(s.skip(from).subrange(at - from, end - from) == s.subrange(at, end));
        lemma_pieces_shift(s, c, from, end + 1);
    }
}

/// A text is split at every occurrence of a character and nowhere else.
pub proof fn texts_are_split_at_each_occurrence(piece: Seq<char>, c: char, rest: Seq<char>)
    requires
        !piece.contains(c),
    ensures
        pieces(piece.push(c) + rest, c) == seq![piece] + pieces(rest, c),
        pieces(piece, c) == seq![piece],
{
    let a = piece.push(c) + rest;
    assert forall|k: int| 0 <= k < piece.len() implies a[k] != c by {
        assert(a[k] == piece[k]);
        assert(piece.contains(piece[k]));
    }
    lemma_first_at(a, c, 0, piece.len() as int);
    assert(a.subrange(0, piece.len() as int) == piece);
    lemma_pieces_shift(a, c, piece.len() as int + 1, piece.len() as int + 1);
    assert(a.skip(piece.len() as int + 1) == rest);
    assert forall|k: int| 0 <= k < piece.len() implies piece[k] != c by {
        assert(piece.contains(piece[k]));
    }
    lemma_first_at(piece, c, 0, piece.len() as int);
    assert(piece.skip(0) == piece);
}

proof fn lemma_joined_front(v: Seq<Seq<char>>, between: Seq<char>)
    requires
        v.len() > 1,
    ensures
        joined(v, between) == v[0] + between + joined(v.drop_first(), between),
    decreases v.len(),
{
    if v.len() > 2 {
        lemma_joined_front(v.drop_last(), between);
        assert(v.drop_last().drop_first() == v.drop_first().drop_last());
        let rest = v.drop_first();
        assert(v.drop_last()[0] == v[0]);
        assert(rest.last() == v.last());
        assert(joined(rest, between) == joined(rest.drop_last(), between) + between + rest.last());
        assert(joined(v, between) == joined(v.drop_last(), between) + between + v.last());
        assert(v[0] + between + joined(v.drop_first().drop_last(), between) + between + v.last()
            == v[0] + between + (joined(v.drop_first().drop_last(), between) + between
            + v.last()));
    } else {
        assert(v.drop_last().len() == 1 && v.drop_first().len() == 1);
        assert(v.drop_last()[0] == v[0] && v.drop_first()[0] == v[1]);
        assert(v.last() == v[1]);
        assert(joined(v.drop_last(), between) == v[0]);
        assert(joined(v.drop_first(), between) == v[1]);
    }
}

/// What is joined with a character that stands in none of the texts splits into these texts again.
pub proof fn joined_texts_split_again(v: Seq<Seq<char>>, c: char)
    requires
        v.len() > 0,
        forall|i: int| 0 <= i < v.len() ==> !(#[trigger] v[i]).contains(c),
    ensures
        pieces(joined(v, seq![c]), c) == v,
    decreases v.len(),
{
    assert(!v[0].contains(c));
    if v.len() == 1 {
        texts_are_split_at_each_occurrence(v[0], c, Seq::empty());
        assert(seq![v[0]] == v);
    } else {
        lemma_joined_front(v, seq![c]);
        let rest = v.drop_first();
        assert forall|i: int| 0 <= i < rest.len() implies !(#[trigger] rest[i]).contains(c) by {
            assert(rest[i] == v[i + 1]);
        }
        joined_texts_split_again(rest, c);
        assert(v[0] + seq![c] == v[0].push(c));
        texts_are_split_at_each_occurrence(v[0], c, joined(rest, seq![c]));
        assert(seq![v[0]] + rest == v);
    }
}

/// Joined texts stand in their order, each whole, with what was asked for between them and nothing at
/// the ends.
pub proof fn joined_texts_stand_in_a_row(v: Seq<Seq<char>>, more: Seq<char>, between: Seq<char>)
    ensures
        v.len() > 0 ==> joined(v.push(more), between) == joined(v, between) + between + more,
        joined(seq![more], between) == more,
        joined(Seq::empty(), between).len() == 0,
{
    assert(v.push(more).drop_last() == v);
}

/// The digits of a number are those of its tenth and its last one.
pub proof fn decimals_are_written_digit_by_digit(n: nat, d: nat)
    requires
        d < 10,
    ensures
        n > 0 ==> decimal(10 * n + d) == decimal(n).push(('0' as u32 + d) as char),
        decimal(d) == seq![('0' as u32 + d) as char],
{
}

/// Text is blank, and nothing stays of it when it is trimmed, exactly where it holds nothing but white
/// space.
pub proof fn blank_text_is_white_space(s: Seq<char>)
    ensures
        trimmed(s).len() == 0 <==> forall|k: int| 0 <= k < s.len() ==> is_white(#[trigger] s[k]),
{
    trimming_takes_the_white_space_at_the_ends(s);
    let (i, j) = choose|i: int, j: int|
        {
            &&& 0 <= i <= j <= s.len()
            &&& trimmed(s) == #[trigger] s.subrange(i, j)
            &&& forall|k: int| 0 <= k < i || j <= k < s.len() ==> is_white(#[trigger] s[k])
            &&& i < j ==> !is_white(s[i]) && !is_white(s[j - 1])
        };
    if i == j {
        assert forall|k: int| 0 <= k < s.len() implies is_white(#[trigger] s[k]) by {
            assert(k < i || j <= k);
        }
    } else {
        assert(!is_white(s[i]));
    }
}

/// White space before a text is taken away when its front is trimmed, all of it and nothing else.
pub proof fn trimming_the_front_takes_white_space(s: Seq<char>)
    ensures
        exists|n: int|
            {
                &&& 0 <= n <= s.len()
                &&& trim_front(s) == #[trigger] s.skip(n)
                &&& forall|k: int| 0 <= k < n ==> is_white(#[trigger] s[k])
                &&& n < s.len() ==> !is_white(s[n])
            },
        exists|n: int|
            {
                &&& 0 <= n <= s.len()
                &&& trim_back(s) == #[trigger] s.take(n)
                &&& forall|k: int| n <= k < s.len() ==> is_white(#[trigger] s[k])
                &&& n > 0 ==> !is_white(s[n - 1])
            },
{
    let p = |c: char| is_white(c);
    let n = lemma_front_stripped(s, p);
    assert(trim_front(s) == s.skip(n));
    assert forall|k: int| 0 <= k < n implies is_white(#[trigger] s[k]) by {
        assert(p(s[k]));
    }
    assert(n < s.len() ==> !p(s[n]));
    let m = lemma_back_stripped(s, p);
    assert(trim_back(s) == s.take(m));
    assert forall|k: int| m <= k < s.len() implies is_white(#[trigger] s[k]) by {
        assert(p(s[k]));
    }
    assert(m > 0 ==> !p(s[m - 1]));
}

/// Small letters stand in for large ones of the alphabet, one for one; nothing else changes.
pub proof fn large_letters_become_small(s: Seq<char>, i: int)
    requires
        0 <= i < s.len(),
    ensures
        ascii_lower(s).len() == s.len(),
        65 <= s[i] as u32 <= 90 ==> ascii_lower(s)[i] as u32 == s[i] as u32 + 32,
        !(65 <= s[i] as u32 <= 90) ==> ascii_lower(s)[i] == s[i],
        ascii_lower(ascii_lower(s)) == ascii_lower(s),
{
    assert('A' as u32 == 65 && 'Z' as u32 == 90);
    assert forall|k: int| 0 <= k < s.len() implies ascii_lower(ascii_lower(s))[k] == ascii_lower(
        s,
    )[k] by {
        lemma_small(s[k]);
    }
    lemma_small(s[i]);
    assert(ascii_lower(ascii_lower(s)) =~= ascii_lower(s));
}

proof fn lemma_small(c: char)
    ensures
        is_upper(c) ==> ascii_lower_char(c) as u32 == c as u32 + 32,
        ascii_lower_char(ascii_lower_char(c)) == ascii_lower_char(c),
{
    assert('A' as u32 == 65 && 'Z' as u32 == 90);
    let n = c as u32;
    assert(n == c as int);
    if is_upper(c) {
        let d = (n + 32) as char;
        assert(d as int == n + 32);
        let m = d as u32;
        assert(m == d as int);
    }
}

/// Of two texts that begin alike, the shorter comes first where it ends, and else the one whose next
/// character has the smaller number.
pub proof fn texts_are_ordered_by_their_first_difference(
    same: Seq<char>,
    c: char,
    a: Seq<char>,
    d: char,
    b: Seq<char>,
)
    requires
        c != d,
    ensures
        text_less(same + seq![c] + a, same + seq![d] + b) <==> (c as int) < (d as int),
        text_less(same, same + seq![d] + b),
        !text_less(same, same),
{
    let x = same + seq![c] + a;
    let y = same + seq![d] + b;
    let n = same.len() as int;
    assert forall|j: int| 0 <= j < n implies x[j] == y[j] by {}
    lemma_text_less_skip(x, y, n);
    assert(x.skip(n)[0] == c && y.skip(n)[0] == d);
    lemma_text_less_skip(same, y, n);
    assert(same.skip(n).len() == 0);
    lemma_text_less_skip(same, same, n);
}

/// Spreading a text spreads its characters one behind the other.
pub proof fn characters_are_spread_in_a_row(
    a: Seq<char>,
    c: char,
    f: spec_fn(char) -> Seq<char>,
)
    ensures
        spread(Seq::empty(), f).len() == 0,
        spread(a.push(c), f) == spread(a, f) + f(c),
{
    assert(a.push(c).drop_last() == a);
}

} // verus!
