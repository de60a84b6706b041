//! Text: comparison of strings, and numbers in decimal.

use vstd::prelude::*;

verus! {

/// Are two strings the same text?
pub fn str_eq(a: &str, b: &str) -> (eq: bool)
    ensures
        eq == (a@ == b@),
{
    let len = a.unicode_len();
    if len != b.unicode_len() {
        return false;
    }
    let mut i: usize = 0;
    while i < len
        invariant
            i <= len,
            len == a@.len(),
            len == b@.len(),
            forall|j: int| 0 <= j < i ==> a@[j] == b@[j],
        decreases len - i,
    {
        if a.get_char(i) != b.get_char(i) {
            return false;
        }
        i += 1;
    }
    assert(a@ =~= b@);
    true
}

/// Is `c` one of the digits `0` to `9`?
pub open spec fn is_digit(c: char) -> bool {
    '0' <= c <= '9'
}

/// The decimal digit for `d`, which is below ten.
pub open spec fn spec_digit_char(d: nat) -> char {
    if d == 0 {
        '0'
    } else if d == 1 {
        '1'
    } else if d == 2 {
        '2'
    } else if d == 3 {
        '3'
    } else if d == 4 {
        '4'
    } else if d == 5 {
        '5'
    } else if d == 6 {
        '6'
    } else if d == 7 {
        '7'
    } else if d == 8 {
        '8'
    } else {
        '9'
    }
}

/// What the digit `c` stands for.
pub open spec fn spec_digit_value(c: char) -> nat {
    (c as u32 - '0' as u32) as nat
}

/// The number that the digits `s` stand for in decimal.
pub open spec fn spec_decimal_value(s: Seq<char>) -> nat
    decreases s.len(),
{
    if s.len() == 0 {
        0
    } else {
        spec_decimal_value(s.drop_last()) * 10 + spec_digit_value(s.last())
    }
}

/// The text `s` without the `+` that it may begin with.
pub open spec fn spec_unsigned(s: Seq<char>) -> Seq<char> {
    if s.len() > 0 && s[0] == '+' {
        s.skip(1)
    } else {
        s
    }
}

/// The number below 65536 that `s` stands for: digits, one at least, after
/// an optional `+`. Leading zeros are allowed.
pub open spec fn spec_parse_u16(s: Seq<char>) -> Option<u16> {
    let digits = spec_unsigned(s);
    if digits.len() == 0 || exists|i: int| 0 <= i < digits.len() && !is_digit(digits[i]) {
        None
    } else if spec_decimal_value(digits) > u16::MAX {
        None
    } else {
        Some(spec_decimal_value(digits) as u16)
    }
}

/// Read a number below 65536 in decimal: digits, one at least, after an
/// optional `+`.
pub fn parse_u16(s: &str) -> (res: Option<u16>)
    ensures
        res == spec_parse_u16(s@),
{
    let len = s.unicode_len();
    let start: usize = if len > 0 && s.get_char(0) == '+' {
        1
    } else {
        0
    };
    if start == len {
        return None;
    }
    let ghost digits = spec_unsigned(s@);
    let mut value: u32 = 0;
    let mut too_large = false;
    let mut i: usize = start;
    while i < len
        invariant
            start <= i <= len,
            start < len,
            len == s@.len(),
            digits == spec_unsigned(s@),
            digits.len() == len - start,
            forall|j: int| 0 <= j < len - start ==> digits[j] == s@[start + j],
            forall|j: int| 0 <= j < i - start ==> is_digit(digits[j]),
            !too_large ==> value == spec_decimal_value(digits.take(i - start)) && value
                <= u16::MAX,
            too_large ==> spec_decimal_value(digits.take(i - start)) > u16::MAX,
        decreases len - i,
    {
        let c = s.get_char(i);
        if !('0' <= c && c <= '9') {
            assert(!is_digit(digits[i - start]));
            assert(spec_parse_u16(s@) is None);
            return None;
        }
        proof {
            let longer = digits.take(i + 1 - start);
            assert(longer.drop_last() =~= digits.take(i - start));
            assert(longer.last() == c);
        }
        if !too_large {
            value = value * 10 + (c as u32 - '0' as u32);
            if value > u16::MAX as u32 {
                too_large = true;
            }
        }
        i += 1;
    }
    assert(digits.take(len - start) =~= digits);
    assert(!(exists|i: int| 0 <= i < digits.len() && !is_digit(digits[i])));
    if too_large {
        None
    } else {
        Some(value as u16)
    }
}

/// The number `n` in decimal, without leading zeros.
pub open spec fn spec_decimal(n: nat) -> Seq<char>
    decreases n,
{
    if n < 10 {
        seq![spec_digit_char(n)]
    } else {
        spec_decimal(n / 10) + seq![spec_digit_char(n % 10)]
    }
}

/// The decimal digit for `d`, as a string.
fn digit_str(d: u16) -> (digit: &'static str)
    requires
        d < 10,
    ensures
        digit@ == seq![spec_digit_char(d as nat)],
{
    proof {
        reveal_strlit("0");
        reveal_strlit("1");
        reveal_strlit("2");
        reveal_strlit("3");
        reveal_strlit("4");
        reveal_strlit("5");
        reveal_strlit("6");
        reveal_strlit("7");
        reveal_strlit("8");
        reveal_strlit("9");
    }
    let digit = if d == 0 {
        "0"
    } else if d == 1 {
        "1"
    } else if d == 2 {
        "2"
    } else if d == 3 {
        "3"
    } else if d == 4 {
        "4"
    } else if d == 5 {
        "5"
    } else if d == 6 {
        "6"
    } else if d == 7 {
        "7"
    } else if d == 8 {
        "8"
    } else {
        "9"
    };
    assert(digit@ =~= seq![spec_digit_char(d as nat)]);
    digit
}

/// Write a number in decimal, without leading zeros.
pub fn u16_to_string(n: u16) -> (text: String)
    ensures
        text@ == spec_decimal(n as nat),
{
    let mut text = String::from_str(digit_str(n % 10));
    let mut rest = n / 10;
    while rest > 0
        invariant
            rest > 0 ==> spec_decimal(n as nat) == spec_decimal(rest as nat) + text@,
            rest == 0 ==> spec_decimal(n as nat) == text@,
        decreases rest,
    {
        let ghost before = text@;
        text = String::from_str(digit_str(rest % 10)).concat(text.as_str());
        proof {
            let digit = seq![spec_digit_char((rest % 10) as nat)];
            if rest >= 10 {
                assert(spec_decimal((rest / 10) as nat) + (digit + before) =~= (spec_decimal(
                    (rest / 10) as nat,
                ) + digit) + before);
            }
        }
        rest = rest / 10;
    }
    text
}

} // verus!
