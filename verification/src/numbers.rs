//! Reading numbers.
use crate::text;
use vstd::prelude::*;
use vstd::string::*;

verus! {

/// The number that digits write.
pub open spec fn digits_value(s: Seq<char>) -> nat
    decreases s.len(),
{
    if s.len() == 0 {
        0
    } else {
        10 * digits_value(s.drop_last()) + digit_value(s.last())
    }
}

/// The number that a digit writes.
pub open spec fn digit_value(c: char) -> nat {
    if '0' <= c && c <= '9' {
        (c as int - '0' as int) as nat
    } else {
        0
    }
}

/// Whether there are characters, and all of them are digits.
pub open spec fn is_number(s: Seq<char>) -> bool {
    s.len() > 0 && forall|i: int| 0 <= i < s.len() ==> text::is_digit(#[trigger] s[i])
}

/// `s` without a plus sign at its start.
pub open spec fn without_plus(s: Seq<char>) -> Seq<char> {
    if s.len() > 0 && s[0] == '+' {
        s.skip(1)
    } else {
        s
    }
}

/// The number that a text writes: digits, after a plus sign or none.
pub open spec fn unsigned_of(s: Seq<char>) -> Option<nat> {
    let digits = without_plus(s);
    if is_number(digits) {
        Some(digits_value(digits))
    } else {
        None
    }
}

/// The number that a text writes, where it is at most `max`.
pub open spec fn unsigned_upto(s: Seq<char>, max: nat) -> Option<nat> {
    match unsigned_of(s) {
        Some(n) => if n <= max {
            Some(n)
        } else {
            None
        },
        None => None,
    }
}

/// The number that a text writes, which may be negative.
pub open spec fn signed_of(s: Seq<char>) -> Option<int> {
    if s.len() > 0 && s[0] == '-' {
        if is_number(s.skip(1)) {
            Some(-(digits_value(s.skip(1)) as int))
        } else {
            None
        }
    } else {
        match unsigned_of(s) {
            Some(n) => Some(n as int),
            None => None,
        }
    }
}

proof fn lemma_prefix_is_less(s: Seq<char>, n: int)
    requires
        0 <= n <= s.len(),
    ensures
        digits_value(s.take(n)) <= digits_value(s),
    decreases s.len() - n,
{
    if n < s.len() {
        lemma_prefix_is_less(s, n + 1);
        assert(s.take(n + 1).drop_last() == s.take(n));
    } else {
        assert(s.take(n) == s);
    }
}

fn value_of_digit(c: char) -> (d: u64)
    requires
        text::is_digit(c),
    ensures
        d == digit_value(c),
        d <= 9,
{
    (c as u64) - ('0' as u64)
}

fn read_digits(v: &[char], from: usize, max: u64) -> (r: Option<u64>)
    requires
        from <= v@.len(),
    ensures
        match r {
            Some(n) => is_number(v@.skip(from as int)) && n == digits_value(
                v@.skip(from as int),
            ) && n <= max,
            None => !is_number(v@.skip(from as int)) || digits_value(v@.skip(from as int)) > max,
        },
{
    let ghost s = v@.skip(from as int);
    if from == v.len() {
        return None;
    }
    let mut n: u64 = 0;
    let mut i: usize = from;
    assert(s.take(0) == Seq::<char>::empty());
    while i < v.len()
        invariant
            from <= i <= v@.len(),
            s == v@.skip(from as int),
            n <= max,
            n == digits_value(s.take(i - from)),
            forall|j: int| 0 <= j < i - from ==> text::is_digit(#[trigger] s[j]),
        decreases v@.len() - i,
    {
        let c: char = v[i];
        assert(s[i - from] == c);
        if !text::digit(c) {
            assert(!is_number(s));
            return None;
        }
        let d: u64 = value_of_digit(c);
        proof {
            assert(s.take(i - from + 1).drop_last() == s.take(i - from));
            assert(s.take(i - from + 1).last() == c);
            lemma_prefix_is_less(s, i - from + 1);
        }
        if n > (u64::MAX - d) / 10 {
            return None;
        }
        let next: u64 = n * 10 + d;
        if next > max {
            return None;
        }
        n = next;
        i += 1;
    }
    assert(s.take(s.len() as int) == s);
    Some(n)
}

/// The number that a text writes, where it is at most `max`.
pub fn parse_unsigned(s: &str, max: u64) -> (r: Option<u64>)
    ensures
        match r {
            Some(n) => unsigned_upto(s@, max as nat) == Some(n as nat),
            None => unsigned_upto(s@, max as nat) is None,
        },
{
    let v = text::chars_of(s);
    if v.len() > 0 && v[0] == '+' {
        read_digits(&v, 1, max)
    } else {
        assert(v@.skip(0) == v@);
        read_digits(&v, 0, max)
    }
}

/// What `std::num::ParseIntError` says of a text that writes no number of one byte.
pub uninterp spec fn byte_fault(s: Seq<char>) -> Seq<char>;

/// `str::parse::<u8>`: the number that a text writes with digits, after a plus sign or none, where it
/// fits into one byte; else what is wrong with the text, which depends on the text alone.
#[verifier::external_body]
pub(crate) fn parse_byte(s: &str) -> (r: Result<u8, String>)
    ensures
        match r {
            Ok(n) => unsigned_upto(s@, 255) == Some(n as nat),
            Err(e) => unsigned_upto(s@, 255) is None && e@ == byte_fault(s@),
        },
{
    s.parse::<u8>().map_err(|error| error.to_string())
}

/// The number that a text writes, where it fits into 32 bits with a sign.
pub fn parse_i32(s: &str) -> (r: Option<i32>)
    ensures
        match r {
            Some(n) => signed_of(s@) == Some(n as int),
            None => !(signed_of(s@) matches Some(n) && i32::MIN <= n <= i32::MAX),
        },
{
    let v = text::chars_of(s);
    if v.len() > 0 && v[0] == '-' {
        match read_digits(&v, 1, 2_147_483_648) {
            Some(n) => Some((-(n as i64)) as i32),
            None => None,
        }
    } else {
        match parse_unsigned(s, 2_147_483_647) {
            Some(n) => Some(n as i32),
            None => None,
        }
    }
}

/// The digits of a number read back as the number.
pub proof fn decimals_read_back(n: nat)
    ensures
        is_number(text::decimal(n)),
        digits_value(text::decimal(n)) == n,
        unsigned_of(text::decimal(n)) == Some(n),
    decreases n,
{
    let d = text::decimal(n);
    if n >= 10 {
        decimals_read_back(n / 10);
        let head = text::decimal(n / 10);
        assert(d == head.push(text::digit_char(n % 10)));
        assert(d.drop_last() == head);
        assert(d.last() == text::digit_char(n % 10));
        assert forall|i: int| 0 <= i < d.len() implies text::is_digit(#[trigger] d[i]) by {
            if i < head.len() {
                assert(d[i] == head[i]);
            }
        }
    } else {
        assert(d.drop_last() == Seq::<char>::empty());
        assert(digits_value(d.drop_last()) == 0);
    }
    assert(text::is_digit(d[0]));
    assert(d[0] != '+');
}

/// One more digit makes a number ten times as large, and adds the digit.
pub proof fn digits_count_tenfold(s: Seq<char>, c: char)
    requires
        48 <= c as int <= 57,
    ensures
        digits_value(Seq::empty()) == 0,
        digits_value(s.push(c)) == 10 * digits_value(s) + (c as int - 48),
{
    assert(s.push(c).drop_last() == s);
    assert('0' as int == 48 && '9' as int == 57);
}

/// A number may have a sign before its digits, of which a minus turns it round; anything else is no
/// number.
pub proof fn a_sign_stands_before_the_digits(digits: Seq<char>)
    requires
        is_number(digits),
    ensures
        unsigned_of(digits) == Some(digits_value(digits)),
        unsigned_of(seq!['+'] + digits) == Some(digits_value(digits)),
        unsigned_of(seq!['-'] + digits) is None,
        signed_of(digits) == Some(digits_value(digits) as int),
        signed_of(seq!['+'] + digits) == Some(digits_value(digits) as int),
        signed_of(seq!['-'] + digits) == Some(0 - digits_value(digits)),
{
    let plus = seq!['+'] + digits;
    let minus = seq!['-'] + digits;
    assert(plus.skip(1) == digits);
    assert(minus.skip(1) == digits);
    assert(text::is_digit(digits[0]));
    lemma_signs(digits[0]);
    lemma_signs('-');
    assert(minus[0] == '-');
    assert(!text::is_digit(minus[0]));
}

proof fn lemma_signs(c: char)
    ensures
        text::is_digit(c) ==> c != '+' && c != '-',
        !text::is_digit('-'),
{
    assert('0' as u32 == 48 && '9' as u32 == 57 && '-' as u32 == 45 && '+' as u32 == 43);
}

/// A text with anything but digits behind its sign is no number, and neither is one without digits.
pub proof fn only_digits_make_a_number(s: Seq<char>, i: int)
    requires
        1 <= i < s.len(),
        !(48 <= s[i] as u32 <= 57),
    ensures
        unsigned_of(s) is None,
        signed_of(s) is None,
        unsigned_of(Seq::empty()) is None,
        signed_of(Seq::empty()) is None,
{
    assert('0' as u32 == 48 && '9' as u32 == 57);
    assert(!text::is_digit(s[i]));
    assert(s.skip(1)[i - 1] == s[i]);
}

/// A number counts up to the largest that is wanted, and not beyond.
pub proof fn numbers_count_up_to_the_largest(s: Seq<char>, n: nat, max: nat)
    requires
        unsigned_of(s) == Some(n),
    ensures
        n <= max ==> unsigned_upto(s, max) == Some(n),
        n > max ==> unsigned_upto(s, max) is None,
{
}

} // verus!
