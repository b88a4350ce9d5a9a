//! Identifiers: 128-bit UUIDs and their text.
use crate::text;
use vstd::prelude::*;

verus! {

/// `uuid::Uuid::new_v4`: a random identifier. Nothing is promised of it, not even that it was not
/// drawn before.
#[verifier::external_body]
pub(crate) fn random_id() -> (id: u128) {
    uuid::Uuid::new_v4().as_u128()
}

/// The identifier that `uuid::Uuid::parse_str` reads from a text, in any of the forms it accepts;
/// `None` where it reads none.
pub uninterp spec fn parsed_id(text: Seq<char>) -> Option<u128>;

/// `uuid::Uuid::parse_str`: the same text always gives the same identifier or failure.
#[verifier::external_body]
pub(crate) fn parse_uuid(text: &str) -> (id: Option<u128>)
    ensures
        id == parsed_id(text@),
{
    uuid::Uuid::parse_str(text).ok().map(|id| id.as_u128())
}

/// The lower-case hexadecimal digit for `d`.
pub open spec fn hex_char(d: nat) -> char {
    if d < 10 {
        ('0' as u32 + d) as char
    } else {
        ('a' as u32 + d - 10) as char
    }
}

/// The last `digits` hexadecimal digits of `n`.
pub open spec fn hex(n: nat, digits: nat) -> Seq<char>
    decreases digits,
{
    if digits == 0 {
        Seq::empty()
    } else {
        hex(n / 16, (digits - 1) as nat).push(hex_char(n % 16))
    }
}

/// The hyphenated text of an identifier: groups of eight, four, four, four and twelve lower-case
/// hexadecimal digits.
pub open spec fn id_view(id: u128) -> Seq<char> {
    let h = hex(id as nat, 32);
    h.subrange(0, 8) + "-"@ + h.subrange(8, 12) + "-"@ + h.subrange(12, 16) + "-"@ + h.subrange(
        16,
        20,
    ) + "-"@ + h.subrange(20, 32)
}

/// The lower-case hexadecimal digit for `d`.
pub fn hex_digit(d: u8) -> (c: char)
    requires
        d < 16,
    ensures
        c == hex_char(d as nat),
{
    if d < 10 {
        (48 + d) as char
    } else {
        (97 + (d - 10)) as char
    }
}

fn hex_digits(n: u128, digits: u8) -> (v: Vec<char>)
    ensures
        v@ == hex(n as nat, digits as nat),
    decreases digits,
{
    if digits == 0 {
        Vec::new()
    } else {
        let mut v = hex_digits(n / 16, digits - 1);
        v.push(hex_digit((n % 16) as u8));
        v
    }
}

proof fn lemma_hex_len(n: nat, digits: nat)
    ensures
        hex(n, digits).len() == digits,
    decreases digits,
{
    if digits > 0 {
        lemma_hex_len(n / 16, (digits - 1) as nat);
    }
}

/// The hyphenated text of an identifier.
pub fn id_text(id: u128) -> (s: String)
    ensures
        s@ == id_view(id),
{
    let h = hex_digits(id, 32);
    proof {
        lemma_hex_len(id as nat, 32);
    }
    let a = text::cat5(&text::text_of_range(&h, 0, 8), "-", &text::text_of_range(&h, 8, 12), "-", &text::text_of_range(&h, 12, 16));
    text::cat5(&a, "-", &text::text_of_range(&h, 16, 20), "-", &text::text_of_range(&h, 20, 32))
}

proof fn lemma_hex_injective(a: nat, b: nat, digits: nat)
    requires
        a < vstd::arithmetic::power::pow(16, digits),
        b < vstd::arithmetic::power::pow(16, digits),
        hex(a, digits) == hex(b, digits),
    ensures
        a == b,
    decreases digits,
{
    vstd::arithmetic::power::lemma_pow0(16);
    if digits > 0 {
        let d = (digits - 1) as nat;
        vstd::arithmetic::power::lemma_pow_positive(16, d);
        assert(vstd::arithmetic::power::pow(16, digits) == 16 * vstd::arithmetic::power::pow(16, d))
            by {
            reveal(vstd::arithmetic::power::pow);
        }
        let x = hex(a / 16, d);
        let y = hex(b / 16, d);
        lemma_hex_len(a / 16, d);
        lemma_hex_len(b / 16, d);
        assert(x == hex(a, digits).drop_last());
        assert(y == hex(b, digits).drop_last());
        assert(hex(a, digits).last() == hex_char(a % 16));
        assert(hex(b, digits).last() == hex_char(b % 16));
        assert(a % 16 == b % 16);
        lemma_hex_injective(a / 16, b / 16, d);
    }
}

/// Two identifiers with the same text are the same identifier.
pub proof fn id_text_is_injective(a: u128, b: u128)
    requires
        id_view(a) == id_view(b),
    ensures
        a == b,
{
    let x = hex(a as nat, 32);
    let y = hex(b as nat, 32);
    lemma_hex_len(a as nat, 32);
    lemma_hex_len(b as nat, 32);
    reveal_strlit("-");
    let s = id_view(a);
    assert(s.subrange(0, 8) == x.subrange(0, 8));
    assert(s.subrange(9, 13) == x.subrange(8, 12));
    assert(s.subrange(14, 18) == x.subrange(12, 16));
    assert(s.subrange(19, 23) == x.subrange(16, 20));
    assert(s.subrange(24, 36) == x.subrange(20, 32));
    assert(s.subrange(0, 8) == y.subrange(0, 8));
    assert(s.subrange(9, 13) == y.subrange(8, 12));
    assert(s.subrange(14, 18) == y.subrange(12, 16));
    assert(s.subrange(19, 23) == y.subrange(16, 20));
    assert(s.subrange(24, 36) == y.subrange(20, 32));
    assert(x == x.subrange(0, 8) + x.subrange(8, 12) + x.subrange(12, 16) + x.subrange(16, 20)
        + x.subrange(20, 32));
    assert(y == y.subrange(0, 8) + y.subrange(8, 12) + y.subrange(12, 16) + y.subrange(16, 20)
        + y.subrange(20, 32));
    assert(vstd::arithmetic::power::pow(16, 32) == 0x1_0000_0000_0000_0000_0000_0000_0000_0000int)
        by {
        assert(vstd::arithmetic::power::pow(16, 2) == 256) by {
            reveal_with_fuel(vstd::arithmetic::power::pow, 3);
        }
        assert(vstd::arithmetic::power::pow(16, 4) == 65536) by {
            vstd::arithmetic::power::lemma_pow_adds(16, 2, 2);
        }
        assert(vstd::arithmetic::power::pow(16, 8) == 0x1_0000_0000) by {
            vstd::arithmetic::power::lemma_pow_adds(16, 4, 4);
        }
        assert(vstd::arithmetic::power::pow(16, 16) == 0x1_0000_0000_0000_0000int) by {
            vstd::arithmetic::power::lemma_pow_adds(16, 8, 8);
        }
        vstd::arithmetic::power::lemma_pow_adds(16, 16, 16);
    }
    lemma_hex_injective(a as nat, b as nat, 32);
}

/// The number that hexadecimal digits write.
pub open spec fn hex_value(s: Seq<char>) -> nat
    decreases s.len(),
{
    if s.len() == 0 {
        0
    } else {
        let n = s.last() as int;
        16 * hex_value(s.drop_last()) + (if 48 <= n <= 57 {
            (n - 48) as nat
        } else if 97 <= n <= 102 {
            (n - 87) as nat
        } else {
            16
        })
    }
}

proof fn lemma_hex_char(d: nat)
    requires
        d < 16,
    ensures
        d < 10 ==> hex_char(d) as int == 48 + d,
        d >= 10 ==> hex_char(d) as int == 87 + d,
{
    assert('0' as u32 == 48 && 'a' as u32 == 97);
}

/// The digits of a number write its last places: sixteen times the digits before, and the last one.
pub proof fn hexadecimal_digits_read_back(n: nat, digits: nat)
    ensures
        hex(n, digits).len() == digits,
        n < vstd::arithmetic::power::pow(16, digits) ==> hex_value(hex(n, digits)) == n,
    decreases digits,
{
    vstd::arithmetic::power::lemma_pow0(16);
    if digits > 0 {
        let m = (digits - 1) as nat;
        hexadecimal_digits_read_back(n / 16, m);
        lemma_hex_char(n % 16);
        let h = hex(n, digits);
        assert(h.drop_last() == hex(n / 16, m));
        assert(h.last() == hex_char(n % 16));
        reveal(vstd::arithmetic::power::pow);
        assert(vstd::arithmetic::power::pow(16, digits) == 16 * vstd::arithmetic::power::pow(16, m));
        if n < vstd::arithmetic::power::pow(16, digits) {
            assert(n / 16 < vstd::arithmetic::power::pow(16, m)) by (nonlinear_arith)
                requires
                    n < 16 * vstd::arithmetic::power::pow(16, m),
            ;
        }
        assert(n == 16 * (n / 16) + n % 16);
    }
}

/// The text of an identifier has five groups of digits with hyphens between them, and the digits alone
/// write its number.
pub proof fn an_id_is_written_in_hexadecimal(id: u128)
    ensures
        ({
            let t = id_view(id);
            let digits = t.subrange(0, 8) + t.subrange(9, 13) + t.subrange(14, 18) + t.subrange(
                19,
                23,
            ) + t.subrange(24, 36);
            &&& t.len() == 36
            &&& t[8] == '-' && t[13] == '-' && t[18] == '-' && t[23] == '-'
            &&& hex_value(digits) == id
        }),
{
    reveal_strlit("-");
    let h = hex(id as nat, 32);
    let t = id_view(id);
    assert(vstd::arithmetic::power::pow(16, 32) == 0x1_0000_0000_0000_0000_0000_0000_0000_0000) by {
        lemma_large_power();
    }
    hexadecimal_digits_read_back(id as nat, 32);
    let digits = t.subrange(0, 8) + t.subrange(9, 13) + t.subrange(14, 18) + t.subrange(19, 23)
        + t.subrange(24, 36);
    assert(digits == h);
}

proof fn lemma_large_power()
    ensures
        vstd::arithmetic::power::pow(16, 32) == 0x1_0000_0000_0000_0000_0000_0000_0000_0000,
{
    reveal(vstd::arithmetic::power::pow);
    vstd::arithmetic::power::lemma_pow0(16);
    let a = vstd::arithmetic::power::pow(16, 8);
    assert(a == 0x1_0000_0000) by {
        reveal_with_fuel(vstd::arithmetic::power::pow, 9);
    }
    vstd::arithmetic::power::lemma_pow_adds(16, 8, 8);
    vstd::arithmetic::power::lemma_pow_adds(16, 16, 16);
    assert(0x1_0000_0000 * 0x1_0000_0000 == 0x1_0000_0000_0000_0000);
    assert(0x1_0000_0000_0000_0000 * 0x1_0000_0000_0000_0000
        == 0x1_0000_0000_0000_0000_0000_0000_0000_0000);
}

} // verus!
