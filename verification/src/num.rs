//! Decimal numbers in text.
use crate::text::chars_of;
use vstd::prelude::*;

verus! {

/// The decimal digits.
pub open spec fn digit(c: char) -> bool {
    '0' <= c <= '9'
}

/// The value of a decimal digit.
pub open spec fn digit_value(c: char) -> nat {
    (c as u32 - '0' as u32) as nat
}

/// Whether `s` is made of decimal digits alone.
pub open spec fn all_digits(s: Seq<char>) -> bool {
    forall|i: int| 0 <= i < s.len() ==> digit(#[trigger] s[i])
}

/// The number that the digits `s` write in base ten.
pub open spec fn digits_value(s: Seq<char>) -> nat
    decreases s.len(),
{
    if s.len() == 0 {
        0
    } else {
        digits_value(s.drop_last()) * 10 + digit_value(s.last())
    }
}

/// The digits of a number literal: what follows one optional `+`.
pub open spec fn literal_digits(s: Seq<char>) -> Seq<char> {
    if s.len() > 0 && s[0] == '+' {
        s.skip(1)
    } else {
        s
    }
}

/// The number that `s` writes, when `s` is an optional `+` and one or more
/// decimal digits, and the number is at most `max`.
pub open spec fn number(s: Seq<char>, max: nat) -> Option<nat> {
    let d = literal_digits(s);
    if d.len() > 0 && all_digits(d) && digits_value(d) <= max {
        Some(digits_value(d))
    } else {
        None
    }
}

/// More digits never make a smaller number.
proof fn lemma_prefix_value(s: Seq<char>, i: int)
    requires
        0 <= i <= s.len(),
    ensures
        digits_value(s.take(i)) <= digits_value(s),
    decreases s.len(),
{
    if i == s.len() {
        assert(s.take(i) == s);
    } else {
        lemma_prefix_value(s.drop_last(), i);
        assert(s.drop_last().take(i) == s.take(i));
    }
}

/// The number that `s` writes, when it is at most `max`.
pub fn parse_up_to(s: &str, max: u64) -> (r: Option<u64>)
    ensures
        match r {
            Some(n) => number(s@, max as nat) == Some(n as nat),
            None => number(s@, max as nat) is None,
        },
{
    let chars = chars_of(s);
    let start: usize = if chars.len() > 0 && chars[0] == '+' { 1 } else { 0 };
    let ghost d = literal_digits(s@);
    assert(d == s@.skip(start as int));
    if chars.len() == start {
        return None;
    }
    let mut value: u64 = 0;
    let mut i: usize = start;
    assert(d.take(0) == Seq::<char>::empty());
    while i < chars.len()
        invariant
            start <= i <= chars@.len(),
            chars@ == s@,
            d == literal_digits(s@),
            d == s@.skip(start as int),
            value <= max,
            value == digits_value(d.take(i - start)),
            forall|j: int| 0 <= j < i - start ==> digit(#[trigger] d[j]),
        decreases chars@.len() - i,
    {
        let c = chars[i];
        assert(d[i - start] == c);
        if c < '0' || c > '9' {
            assert(!digit(d[i - start]));
            return None;
        }
        let v: u64 = (c as u32 - '0' as u32) as u64;
        let ghost next = d.take(i - start + 1);
        assert(next.drop_last() == d.take(i - start));
        assert(next.last() == c);
        assert(digits_value(next) == value * 10 + v);
        proof {
            lemma_prefix_value(d, i - start + 1);
        }
        if v > max || value > (max - v) / 10 {
            return None;
        }
        value = value * 10 + v;
        i += 1;
    }
    assert(d.take(d.len() as int) == d);
    Some(value)
}

/// The port-sized number that `s` writes.
pub fn parse_u16(s: &str) -> (r: Option<u16>)
    ensures
        match r {
            Some(n) => number(s@, 0xffff) == Some(n as nat),
            None => number(s@, 0xffff) is None,
        },
{
    match parse_up_to(s, 0xffff) {
        Some(n) => Some(n as u16),
        None => None,
    }
}

/// The 64-bit number that `s` writes.
pub fn parse_u64(s: &str) -> (r: Option<u64>)
    ensures
        match r {
            Some(n) => number(s@, u64::MAX as nat) == Some(n as nat),
            None => number(s@, u64::MAX as nat) is None,
        },
{
    parse_up_to(s, u64::MAX)
}

/// The machine-sized number that `s` writes.
pub fn parse_usize(s: &str) -> (r: Option<usize>)
    ensures
        match r {
            Some(n) => number(s@, usize::MAX as nat) == Some(n as nat),
            None => number(s@, usize::MAX as nat) is None,
        },
{
    match parse_up_to(s, usize::MAX as u64) {
        Some(n) => Some(n as usize),
        None => None,
    }
}

/// The digit that stands for `n`.
pub open spec fn digit_char(n: nat) -> char {
    (('0' as u32 + n) as u32) as char
}

/// `n` written in base ten without leading zeros.
pub open spec fn decimal(n: nat) -> Seq<char>
    decreases n,
{
    if n < 10 {
        seq![digit_char(n)]
    } else {
        decimal(n / 10).push(digit_char(n % 10))
    }
}

/// `n` written in base ten without leading zeros.
pub fn decimal_string(n: u64) -> (r: String)
    ensures
        r@ == decimal(n as nat),
    decreases n,
{
    let c = ('0' as u8 + (n % 10) as u8) as char;
    let mut r = if n < 10 { String::new() } else { decimal_string(n / 10) };
    r.push(c);
    assert(n < 10 ==> r@ == decimal(n as nat));
    r
}

/// Every number that is written out reads back as itself.
pub proof fn decimal_reads_back(n: nat, max: nat)
    requires
        n <= max,
    ensures
        number(decimal(n), max) == Some(n),
{
    lemma_decimal(n);
    assert(decimal(n)[0] != '+');
}

pub(crate) proof fn lemma_decimal(n: nat)
    ensures
        decimal(n).len() > 0,
        all_digits(decimal(n)),
        digits_value(decimal(n)) == n,
    decreases n,
{
    reveal_with_fuel(digits_value, 2);
    if n < 10 {
        let s = seq![digit_char(n)];
        assert(s.drop_last() == Seq::<char>::empty());
        assert(s.last() == digit_char(n));
    } else {
        lemma_decimal(n / 10);
        let s = decimal(n / 10).push(digit_char(n % 10));
        assert(s.drop_last() == decimal(n / 10));
        assert(s.last() == digit_char(n % 10));
        assert forall|i: int| 0 <= i < s.len() implies digit(#[trigger] s[i]) by {
            if i < s.len() - 1 {
                assert(decimal(n / 10)[i] == s[i]);
            }
        }
    }
}

} // verus!
