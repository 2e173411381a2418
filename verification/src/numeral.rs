//! Decimal numerals for small unsigned integers: reading them from text and
//! writing them back.

use vstd::prelude::*;

verus! {

/// Whether `c` is one of the ten ASCII decimal digits.
pub open spec fn is_digit(c: char) -> bool {
    0x30 <= c as u32 <= 0x39
}

/// The number a decimal digit stands for; zero for any other character.
pub open spec fn digit_value(c: char) -> nat {
    if is_digit(c) {
        (c as u32 - 0x30) as nat
    } else {
        0
    }
}

/// The decimal digit that stands for `d`, for `d < 10`.
pub open spec fn digit_char(d: nat) -> char
    recommends
        d < 10,
{
    (0x30 + d) as char
}

/// Whether every character of `s` is a decimal digit.
pub open spec fn all_digits(s: Seq<char>) -> bool {
    forall|i: int| 0 <= i < s.len() ==> is_digit(#[trigger] s[i])
}

/// The number that a run of decimal digits denotes, most significant digit
/// first.
pub open spec fn digits_value(s: Seq<char>) -> nat
    decreases s.len(),
{
    if s.len() == 0 {
        0
    } else {
        digits_value(s.drop_last()) * 10 + digit_value(s.last())
    }
}

/// `s` without one leading plus sign, if it has one.
pub open spec fn strip_plus(s: Seq<char>) -> Seq<char> {
    if s.len() > 0 && s.first() == '+' {
        s.drop_first()
    } else {
        s
    }
}

/// The `u8` that `s` denotes: an optional plus sign followed by one or more
/// decimal digits whose value is at most 255. Any other text, the empty one
/// included, denotes nothing.
pub open spec fn u8_numeral(s: Seq<char>) -> Option<u8> {
    let digits = strip_plus(s);
    if digits.len() > 0 && all_digits(digits) && digits_value(digits) <= u8::MAX {
        Some(digits_value(digits) as u8)
    } else {
        None
    }
}

/// The shortest decimal numeral for `n`.
pub open spec fn decimal(n: nat) -> Seq<char>
    decreases n,
{
    if n < 10 {
        seq![digit_char(n)]
    } else {
        decimal(n / 10).push(digit_char(n % 10))
    }
}

/// The decimal numeral for `n`, padded with a zero on the left to at least two
/// digits.
pub open spec fn two_digit(n: nat) -> Seq<char> {
    if n < 10 {
        seq!['0', digit_char(n)]
    } else {
        decimal(n)
    }
}

/// A run of digits is worth at least as much as any of its prefixes.
pub proof fn lemma_digits_value_prefix(s: Seq<char>, k: int)
    requires
        0 <= k <= s.len(),
    ensures
        digits_value(s.take(k)) <= digits_value(s),
    decreases s.len() - k,
{
    if k == s.len() {
        assert(s.take(k) == s);
    } else {
        lemma_digits_value_prefix(s.drop_last(), k);
        assert(s.drop_last().take(k) == s.take(k));
    }
}

/// The shortest numeral for `n` is made of digits, and they denote `n`.
pub proof fn lemma_decimal_digits(n: nat)
    ensures
        decimal(n).len() > 0,
        all_digits(decimal(n)),
        digits_value(decimal(n)) == n,
    decreases n,
{
    if n < 10 {
        assert(decimal(n).drop_last() == Seq::<char>::empty());
        assert(digits_value(decimal(n)) == digits_value(Seq::<char>::empty()) * 10 + digit_value(
            digit_char(n),
        ));
    } else {
        lemma_decimal_digits(n / 10);
        assert(decimal(n).drop_last() == decimal(n / 10));
    }
}

/// Writing a `u8` and reading the numeral back gives the same number, with
/// or without the padding to two digits.
pub proof fn lemma_numeral_round_trip(n: u8)
    ensures
        u8_numeral(decimal(n as nat)) == Some(n),
        u8_numeral(two_digit(n as nat)) == Some(n),
{
    lemma_decimal_digits(n as nat);
    if n < 10 {
        let padded = two_digit(n as nat);
        assert(padded.drop_last() == seq!['0']);
        assert(seq!['0'].drop_last() == Seq::<char>::empty());
        assert(digits_value(seq!['0']) == digits_value(Seq::<char>::empty()) * 10 + digit_value(
            '0',
        ));
    }
}

/// Whether `c` is a decimal digit.
pub fn char_is_digit(c: char) -> (b: bool)
    ensures
        b == is_digit(c),
{
    let u: u32 = c as u32;
    0x30 <= u && u <= 0x39
}

/// Reads `chars[lo..hi]` as a `u8` numeral.
pub fn parse_u8_range(chars: &Vec<char>, lo: usize, hi: usize) -> (r: Option<u8>)
    requires
        lo <= hi <= chars.len(),
    ensures
        r == u8_numeral(chars@.subrange(lo as int, hi as int)),
{
    let ghost s = chars@.subrange(lo as int, hi as int);
    if lo == hi {
        return None;
    }
    let start: usize = if chars[lo] == '+' {
        lo + 1
    } else {
        lo
    };
    let ghost digits = chars@.subrange(start as int, hi as int);
    if start == hi {
        return None;
    }
    let mut acc: u32 = 0;
    let mut i: usize = start;
    while i < hi
        invariant
            lo <= start <= i <= hi <= chars.len(),
            s == chars@.subrange(lo as int, hi as int),
            digits == chars@.subrange(start as int, hi as int),
            digits == strip_plus(s),
            all_digits(digits.take(i - start)),
            acc == digits_value(digits.take(i - start)),
            acc <= u8::MAX,
        decreases hi - i,
    {
        let c = chars[i];
        let ghost k = i - start;
        assert(digits[k] == c);
        if !char_is_digit(c) {
            return None;
        }
        let next: u32 = acc * 10 + (c as u32 - 0x30);
        proof {
            assert(digits.take(k + 1).drop_last() == digits.take(k));
        }
        if next > 255 {
            proof {
                lemma_digits_value_prefix(digits, k + 1);
            }
            return None;
        }
        acc = next;
        i = i + 1;
    }
    assert(digits.take(hi - start) == digits);
    Some(acc as u8)
}

/// The decimal digit for `d`.
pub fn digit_to_char(d: u8) -> (c: char)
    requires
        d < 10,
    ensures
        c == digit_char(d as nat),
{
    (0x30 + d) as char
}

/// Appends the shortest decimal numeral for `n` to `buf`.
pub fn push_decimal(buf: &mut Vec<char>, n: u8)
    ensures
        final(buf)@ == old(buf)@ + decimal(n as nat),
{
    proof {
        reveal_with_fuel(decimal, 3);
    }
    if n >= 100 {
        buf.push(digit_to_char(n / 100));
    }
    if n >= 10 {
        buf.push(digit_to_char((n / 10) % 10));
    }
    buf.push(digit_to_char(n % 10));
}

/// Appends the decimal numeral for `n`, at least two digits wide, to `buf`.
pub fn push_two_digit(buf: &mut Vec<char>, n: u8)
    ensures
        final(buf)@ == old(buf)@ + two_digit(n as nat),
{
    if n < 10 {
        buf.push('0');
        buf.push(digit_to_char(n));
    } else {
        push_decimal(buf, n);
    }
}

} // verus!
