//! Decimal notation: reading integers from text and writing them back.
//!
//! The accepted notation is an optional sign followed by one or more ASCII
//! digits, with nothing before or after. A `+` sign is always accepted, a
//! `-` sign only where a negative result is possible. Leading zeros are
//! allowed. A number outside the range of the requested type is rejected.

use vstd::prelude::*;
use vstd::string::*;

verus! {

/// `c` is one of the ASCII digits `0` to `9`.
pub open spec fn is_digit(c: char) -> bool {
    '0' <= c && c <= '9'
}

/// The number that the digit `c` stands for.
pub open spec fn digit_value(c: char) -> nat
    recommends
        is_digit(c),
{
    (c as nat - '0' as nat) as nat
}

/// The digit that stands for `d`.
pub open spec fn digit_char(d: nat) -> char
    recommends
        d < 10,
{
    ((d + '0' as nat) as u8) as char
}

/// Every character of `s` is an ASCII digit.
pub open spec fn all_digits(s: Seq<char>) -> bool {
    forall|i: int| 0 <= i < s.len() ==> is_digit(#[trigger] s[i])
}

/// The number written by the digits `s`, most significant first.
pub open spec fn digits_value(s: Seq<char>) -> nat
    decreases s.len(),
{
    if s.len() == 0 {
        0
    } else {
        digits_value(s.drop_last()) * 10 + digit_value(s.last())
    }
}

/// The number written by `s` when `s` is a non-empty run of digits.
pub open spec fn natural(s: Seq<char>) -> Option<nat> {
    if s.len() > 0 && all_digits(s) {
        Some(digits_value(s))
    } else {
        None
    }
}

/// The integer written by `s`: an optional `+`, or an optional `-` where
/// `signed` allows it, followed by a non-empty run of digits.
pub open spec fn integer(s: Seq<char>, signed: bool) -> Option<int> {
    if s.len() > 0 && s[0] == '+' {
        match natural(s.skip(1)) {
            Some(n) => Some(n as int),
            None => None,
        }
    } else if signed && s.len() > 0 && s[0] == '-' {
        match natural(s.skip(1)) {
            Some(n) => Some(-(n as int)),
            None => None,
        }
    } else {
        match natural(s) {
            Some(n) => Some(n as int),
            None => None,
        }
    }
}

/// The integer written by `s` when it lies between `min` and `max`.
pub open spec fn integer_within(s: Seq<char>, signed: bool, min: int, max: int) -> Option<int> {
    match integer(s, signed) {
        Some(n) if min <= n <= max => Some(n),
        _ => None,
    }
}

/// The `usize` written by `s`, if any.
pub open spec fn usize_of(s: Seq<char>) -> Option<usize> {
    match integer_within(s, false, 0, usize::MAX as int) {
        Some(n) => Some(n as usize),
        None => None,
    }
}

/// The `u32` written by `s`, if any.
pub open spec fn u32_of(s: Seq<char>) -> Option<u32> {
    match integer_within(s, false, 0, u32::MAX as int) {
        Some(n) => Some(n as u32),
        None => None,
    }
}

/// The `i32` written by `s`, if any.
pub open spec fn i32_of(s: Seq<char>) -> Option<i32> {
    match integer_within(s, true, i32::MIN as int, i32::MAX as int) {
        Some(n) => Some(n as i32),
        None => None,
    }
}

/// The `i64` written by `s`, if any.
pub open spec fn i64_of(s: Seq<char>) -> Option<i64> {
    match integer_within(s, true, i64::MIN as int, i64::MAX as int) {
        Some(n) => Some(n as i64),
        None => None,
    }
}

/// The shortest decimal notation of `n`: no sign, no leading zeros.
pub open spec fn decimal(n: nat) -> Seq<char>
    decreases n,
{
    if n < 10 {
        seq![digit_char(n)]
    } else {
        decimal(n / 10).push(digit_char(n % 10))
    }
}

/// Every digit character stands for the number it was made from.
pub proof fn lemma_digit_char(d: nat)
    requires
        d < 10,
    ensures
        is_digit(digit_char(d)),
        digit_value(digit_char(d)) == d,
        digit_char(d) != '+',
        digit_char(d) != '-',
        digit_char(d) != '.',
        digit_char(d) != ',',
{
}

/// A run of digits is worth at least as much as any of its prefixes.
pub proof fn lemma_prefix_value(s: Seq<char>, k: int)
    requires
        0 <= k <= s.len(),
    ensures
        digits_value(s.take(k)) <= digits_value(s),
    decreases s.len() - k,
{
    if k == s.len() {
        assert(s.take(k) =~= s);
    } else {
        lemma_prefix_value(s.drop_last(), k);
        assert(s.drop_last().take(k) =~= s.take(k));
    }
}

/// Reading the decimal notation of a number gives the number back.
pub proof fn lemma_decimal_reads_back(n: nat)
    ensures
        decimal(n).len() >= 1,
        all_digits(decimal(n)),
        digits_value(decimal(n)) == n,
        natural(decimal(n)) == Some(n),
        integer(decimal(n), true) == Some(n as int),
        integer(decimal(n), false) == Some(n as int),
    decreases n,
{
    let s = decimal(n);
    if n < 10 {
        lemma_digit_char(n);
        assert(s.drop_last() =~= Seq::<char>::empty());
        assert(digits_value(s.drop_last()) == 0);
        assert(s.last() == digit_char(n));
    } else {
        lemma_decimal_reads_back(n / 10);
        lemma_digit_char(n % 10);
        assert(s.drop_last() =~= decimal(n / 10));
        assert(s.last() == digit_char(n % 10));
    }
    assert(is_digit(s[0]));
}

/// The number written by the digits of `s` from position `from` to the end,
/// when there is at least one, all are digits, and it does not exceed
/// `limit`.
fn parse_natural(s: &Vec<char>, from: usize, limit: u64) -> (parsed: Option<u64>)
    requires
        from <= s.len(),
    ensures
        parsed == match natural(s@.skip(from as int)) {
            Some(n) if n <= limit => Some(n as u64),
            _ => None::<u64>,
        },
{
    let ghost digits = s@.skip(from as int);
    if from == s.len() {
        return None;
    }
    let mut value: u64 = 0;
    let mut i: usize = from;
    while i < s.len()
        invariant
            from <= i <= s.len(),
            digits == s@.skip(from as int),
            all_digits(digits.take(i - from)),
            value == digits_value(digits.take(i - from)),
            value <= limit,
        decreases s.len() - i,
    {
        let c = s[i];
        proof {
            assert(digits[i - from] == c);
            assert(digits.take(i - from + 1).drop_last() =~= digits.take(i - from));
        }
        if !(c >= '0' && c <= '9') {
            return None;
        }
        let digit: u64 = (c as u32 - '0' as u32) as u64;
        let next: u128 = value as u128 * 10 + digit as u128;
        if next > limit as u128 {
            proof {
                if all_digits(digits) {
                    lemma_prefix_value(digits, i - from + 1);
                }
            }
            return None;
        }
        value = next as u64;
        i += 1;
    }
    proof {
        assert(digits.take(i - from) =~= digits);
    }
    Some(value)
}

/// Reads an unsigned number no greater than `max`.
fn parse_unsigned(s: &Vec<char>, max: u64) -> (parsed: Option<u64>)
    ensures
        parsed == match integer_within(s@, false, 0, max as int) {
            Some(n) => Some(n as u64),
            None => None::<u64>,
        },
{
    if s.len() > 0 && s[0] == '+' {
        parse_natural(s, 1, max)
    } else {
        assert(s@.skip(0) =~= s@);
        parse_natural(s, 0, max)
    }
}

/// Reads a signed number between `min` and `max`.
fn parse_signed(s: &Vec<char>, min: i64, max: i64) -> (parsed: Option<i64>)
    requires
        min <= 0 <= max,
    ensures
        parsed == match integer_within(s@, true, min as int, max as int) {
            Some(n) => Some(n as i64),
            None => None::<i64>,
        },
{
    if s.len() > 0 && s[0] == '-' {
        let limit: u64 = if min == i64::MIN {
            0x8000_0000_0000_0000
        } else {
            (-min) as u64
        };
        match parse_natural(s, 1, limit) {
            Some(n) => {
                if n == 0x8000_0000_0000_0000 {
                    Some(i64::MIN)
                } else {
                    Some(-(n as i64))
                }
            },
            None => None,
        }
    } else if s.len() > 0 && s[0] == '+' {
        match parse_natural(s, 1, max as u64) {
            Some(n) => Some(n as i64),
            None => None,
        }
    } else {
        assert(s@.skip(0) =~= s@);
        match parse_natural(s, 0, max as u64) {
            Some(n) => Some(n as i64),
            None => None,
        }
    }
}

/// Reads a `usize`.
pub fn parse_usize(s: &Vec<char>) -> (parsed: Option<usize>)
    ensures
        parsed == usize_of(s@),
{
    match parse_unsigned(s, usize::MAX as u64) {
        Some(n) => Some(n as usize),
        None => None,
    }
}

/// Reads a `u32`.
pub fn parse_u32(s: &Vec<char>) -> (parsed: Option<u32>)
    ensures
        parsed == u32_of(s@),
{
    match parse_unsigned(s, u32::MAX as u64) {
        Some(n) => Some(n as u32),
        None => None,
    }
}

/// Reads an `i32`.
pub fn parse_i32(s: &Vec<char>) -> (parsed: Option<i32>)
    ensures
        parsed == i32_of(s@),
{
    match parse_signed(s, i32::MIN as i64, i32::MAX as i64) {
        Some(n) => Some(n as i32),
        None => None,
    }
}

/// Reads an `i64`.
pub fn parse_i64(s: &Vec<char>) -> (parsed: Option<i64>)
    ensures
        parsed == i64_of(s@),
{
    parse_signed(s, i64::MIN, i64::MAX)
}

/// The one-character text of the digit `d`.
fn digit_text(d: u8) -> (text: &'static str)
    requires
        d < 10,
    ensures
        text@ == seq![digit_char(d as nat)],
{
    proof {
        reveal_strlit("0");
        reveal_strlit("1");
        reveal_strlit("2");
        reveal_strlit("3");
        reveal_strlit("4");
        reveal_strlit("5");
        reveal_strlit("6");
        reveal_strlit("7");
        reveal_strlit("8");
        reveal_strlit("9");
    }
    let text = match d {
        0 => "0",
        1 => "1",
        2 => "2",
        3 => "3",
        4 => "4",
        5 => "5",
        6 => "6",
        7 => "7",
        8 => "8",
        _ => "9",
    };
    assert(text@ =~= seq![digit_char(d as nat)]);
    text
}

/// Appends the decimal notation of `n` to `out`.
pub fn push_decimal(out: &mut String, n: u32)
    ensures
        final(out)@ == old(out)@ + decimal(n as nat),
    decreases n,
{
    if n >= 10 {
        push_decimal(out, n / 10);
    }
    out.append(digit_text((n % 10) as u8));
    assert(out@ =~= old(out)@ + decimal(n as nat));
}

} // verus!
