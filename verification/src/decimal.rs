//! Decimal text for unsigned integers: rendering as `to_string` does and
//! parsing as `str::parse` does.
use vstd::prelude::*;

use crate::text::{chars_of, string_from_chars};

verus! {

/// The ASCII digit of `d` (below 10).
pub open spec fn digit_char(d: int) -> char {
    ((d + 48) as u8) as char
}

/// Whether `c` is an ASCII digit.
pub open spec fn is_digit(c: char) -> bool {
    48 <= (c as u32) <= 57
}

/// The value of the ASCII digit `c`.
pub open spec fn digit_value(c: char) -> int {
    (c as u32) - 48
}

/// The decimal digits of `n`, without leading zeros.
pub open spec fn decimal(n: nat) -> Seq<char>
    decreases n,
{
    if n < 10 {
        seq![digit_char(n as int)]
    } else {
        decimal(n / 10).push(digit_char((n % 10) as int))
    }
}

/// The number a run of ASCII digits spells.
pub open spec fn digits_value(digits: Seq<char>) -> int
    decreases digits.len(),
{
    if digits.len() == 0 {
        0
    } else {
        digits_value(digits.drop_last()) * 10 + digit_value(digits.last())
    }
}

/// The digits of unsigned integer text: the text without one leading `+`.
pub open spec fn unsigned_digits(text: Seq<char>) -> Seq<char> {
    if text.len() > 0 && text[0] == '+' {
        text.drop_first()
    } else {
        text
    }
}

/// Whether every character is an ASCII digit.
pub open spec fn all_digits(text: Seq<char>) -> bool {
    forall|i: int| 0 <= i < text.len() ==> is_digit(#[trigger] text[i])
}

/// What parsing `text` as an unsigned integer at most `max` gives: an
/// optional `+`, then one or more ASCII digits whose value is at most `max`.
pub open spec fn parse_unsigned(text: Seq<char>, max: int) -> Option<int> {
    let digits = unsigned_digits(text);
    if digits.len() == 0 || !all_digits(digits) {
        None
    } else if digits_value(digits) > max {
        None
    } else {
        Some(digits_value(digits))
    }
}

proof fn lemma_digit_char(d: int)
    requires
        0 <= d < 10,
    ensures
        is_digit(digit_char(d)),
        digit_value(digit_char(d)) == d,
{
    assert((((d + 48) as u8) as char) as u32 == d + 48);
}

/// The decimal text of `n` parses back to `n`.
pub proof fn lemma_decimal_roundtrip(n: nat)
    ensures
        decimal(n).len() > 0,
        forall|i: int| 0 <= i < decimal(n).len() ==> is_digit(#[trigger] decimal(n)[i]),
        digits_value(decimal(n)) == n,
    decreases n,
{
    if n < 10 {
        lemma_digit_char(n as int);
        assert(decimal(n).drop_last() =~= Seq::<char>::empty());
        assert(digits_value(decimal(n)) == digits_value(decimal(n).drop_last()) * 10 + digit_value(decimal(n).last()));
        assert(digit_value(decimal(n).last()) == n);
    } else {
        lemma_decimal_roundtrip(n / 10);
        lemma_digit_char((n % 10) as int);
        let d = decimal(n);
        assert(d.drop_last() =~= decimal(n / 10));
        assert(d.last() == digit_char((n % 10) as int));
        assert(digits_value(d) == digits_value(d.drop_last()) * 10 + digit_value(d.last()));
        assert(n == (n / 10) * 10 + n % 10);
        assert(digits_value(d.drop_last()) == n / 10);
        assert(digit_value(d.last()) == n % 10);
        assert forall|i: int| 0 <= i < d.len() implies is_digit(#[trigger] d[i]) by {
            if i < d.len() - 1 {
                assert(d[i] == decimal(n / 10)[i]);
            }
        }
    }
}

/// Parsing the decimal text of `n`, which is at most `max`, gives `n`.
pub proof fn lemma_parse_decimal(n: nat, max: int)
    requires
        n <= max,
    ensures
        parse_unsigned(decimal(n), max) == Some(n as int),
{
    lemma_decimal_roundtrip(n);
    let d = decimal(n);
    assert(d[0] != '+') by {
        assert(is_digit(d[0]));
    }
}

proof fn lemma_digits_value_monotone(digits: Seq<char>, k: int)
    requires
        0 <= k <= digits.len(),
        forall|i: int| 0 <= i < digits.len() ==> is_digit(#[trigger] digits[i]),
    ensures
        digits_value(digits.subrange(0, k)) <= digits_value(digits),
        digits_value(digits) >= 0,
    decreases digits.len(),
{
    if digits.len() > 0 {
        let shorter = digits.drop_last();
        assert forall|i: int| 0 <= i < shorter.len() implies is_digit(#[trigger] shorter[i]) by {
            assert(shorter[i] == digits[i]);
        }
        if k < digits.len() {
            assert(digits.subrange(0, k) =~= shorter.subrange(0, k));
            lemma_digits_value_monotone(shorter, k);
        } else {
            assert(digits.subrange(0, k) =~= digits);
            lemma_digits_value_monotone(shorter, 0);
        }
        assert(is_digit(digits.last()));
    }
}

/// Parses unsigned decimal text as `str::parse` does for an integer type
/// whose maximum is `max`.
pub fn parse_unsigned_text(text: &str, max: u32) -> (result: Option<u32>)
    ensures
        match parse_unsigned(text@, max as int) {
            Some(value) => result matches Some(r) && r as int == value,
            None => result is None,
        },
{
    let chars = chars_of(text);
    let start: usize = if chars.len() > 0 && chars[0] == '+' { 1 } else { 0 };
    let ghost digits = unsigned_digits(text@);
    assert(digits =~= chars@.subrange(start as int, chars@.len() as int));
    if start == chars.len() {
        return None;
    }
    let mut i = start;
    while i < chars.len()
        invariant
            start <= i <= chars@.len(),
            chars@ == text@,
            digits == unsigned_digits(text@),
            digits == chars@.subrange(start as int, chars@.len() as int),
            forall|j: int| 0 <= j < i - start ==> is_digit(#[trigger] digits[j]),
        decreases chars.len() - i,
    {
        let code = chars[i] as u32;
        if !(48 <= code && code <= 57) {
            assert(!is_digit(digits[i - start]));
            return None;
        }
        i += 1;
    }
    let mut value: u32 = 0;
    let mut k = start;
    while k < chars.len()
        invariant
            start <= k <= chars@.len(),
            chars@ == text@,
            digits == unsigned_digits(text@),
            digits == chars@.subrange(start as int, chars@.len() as int),
            forall|j: int| 0 <= j < digits.len() ==> is_digit(#[trigger] digits[j]),
            value == digits_value(digits.subrange(0, k - start)),
            value <= max,
        decreases chars.len() - k,
    {
        proof {
            assert(digits[k - start] == chars@[k as int]);
            assert(is_digit(chars@[k as int]));
        }
        let d = (chars[k] as u32) - 48;
        proof {
            let prefix = digits.subrange(0, k - start + 1);
            assert(prefix.drop_last() =~= digits.subrange(0, k - start));
            assert(prefix.last() == chars@[k as int]);
            assert(is_digit(digits[k - start]));
        }
        if (value as u64) * 10 + (d as u64) > max as u64 {
            proof {
                lemma_digits_value_monotone(digits, k - start + 1);
                assert(digits_value(digits.subrange(0, k - start + 1)) == value * 10 + d);
            }
            return None;
        }
        value = value * 10 + d;
        k += 1;
    }
    assert(digits.subrange(0, digits.len() as int) =~= digits);
    Some(value)
}

/// The decimal digits of `n`.
fn decimal_chars(n: u64) -> (result: Vec<char>)
    ensures
        result@ == decimal(n as nat),
    decreases n,
{
    let digit = ((n % 10) as u8 + 48) as char;
    if n < 10 {
        vec![digit]
    } else {
        let mut chars = decimal_chars(n / 10);
        chars.push(digit);
        chars
    }
}

/// `n.to_string()`.
pub fn render_decimal(n: u32) -> (text: String)
    ensures
        text@ == decimal(n as nat),
{
    string_from_chars(&decimal_chars(n as u64))
}

/// The decimal text of a signed integer: a `-` before the digits of a
/// negative number.
pub open spec fn signed_decimal(n: int) -> Seq<char> {
    if n < 0 {
        seq!['-'] + decimal((-n) as nat)
    } else {
        decimal(n as nat)
    }
}

/// `n.to_string()` for a signed integer.
pub fn render_signed(n: i64) -> (text: String)
    ensures
        text@ == signed_decimal(n as int),
{
    if n < 0 {
        let magnitude: u64 = if n == i64::MIN {
            9_223_372_036_854_775_808u64
        } else {
            (-n) as u64
        };
        let mut chars = vec!['-'];
        let mut digits = decimal_chars(magnitude);
        chars.append(&mut digits);
        assert(chars@ =~= seq!['-'] + decimal((-n) as nat));
        string_from_chars(&chars)
    } else {
        string_from_chars(&decimal_chars(n as u64))
    }
}

} // verus!
