//! Wall-clock times of day, written `hour:minute`.

use crate::numeral::{
    lemma_decimal_digits, lemma_numeral_round_trip, parse_u8_range, push_two_digit, two_digit,
    u8_numeral,
};
use crate::text::{chars_of, find_char, lemma_position_of_unique, position_of, string_of};
use vstd::prelude::*;

verus! {

/// A time of day. Neither part is held to a range: whatever fits the two
/// `u8`s can be read and written.
#[derive(Debug, Clone, Copy, PartialEq, Eq, Structural)]
pub struct Time {
    /// The hour, 0 to 23 in a well-kept report.
    pub hour: u8,
    /// The minute, 0 to 59 in a well-kept report.
    pub minute: u8,
}

/// The time that `s` denotes: a `u8` numeral for the hour, a colon, and a `u8`
/// numeral for the minute. The first colon is the separator, so a text with a
/// second colon denotes nothing, and neither does one without any.
pub open spec fn time_of_text(s: Seq<char>) -> Option<Time> {
    let k = position_of(s, ':') as int;
    if k < s.len() {
        match (u8_numeral(s.subrange(0, k)), u8_numeral(s.subrange(k + 1, s.len() as int))) {
            (Some(hour), Some(minute)) => Some(Time { hour, minute }),
            _ => None,
        }
    } else {
        None
    }
}

/// How a time is written: hour and minute, each at least two digits wide,
/// with a colon between them.
pub open spec fn time_text(t: Time) -> Seq<char> {
    two_digit(t.hour as nat) + seq![':'] + two_digit(t.minute as nat)
}

/// The midnight that stands in for a time that could not be read.
pub open spec fn midnight() -> Time {
    Time { hour: 0, minute: 0 }
}

/// Writing a time and reading the text back gives the same time.
pub proof fn lemma_time_round_trip(t: Time)
    ensures
        time_of_text(time_text(t)) == Some(t),
{
    let hour = two_digit(t.hour as nat);
    let minute = two_digit(t.minute as nat);
    let text = time_text(t);
    let k = hour.len() as int;
    lemma_decimal_digits(t.hour as nat);
    lemma_numeral_round_trip(t.hour);
    lemma_numeral_round_trip(t.minute);
    lemma_position_of_unique(text, ':', k);
    assert(text.subrange(0, k) == hour);
    assert(text.subrange(k + 1, text.len() as int) == minute);
}

/// Reads `chars[lo..hi]` as a time.
pub fn parse_time_range(chars: &Vec<char>, lo: usize, hi: usize) -> (r: Option<Time>)
    requires
        lo <= hi <= chars.len(),
    ensures
        r == time_of_text(chars@.subrange(lo as int, hi as int)),
{
    let ghost s = chars@.subrange(lo as int, hi as int);
    let k = find_char(chars, lo, hi, ':');
    if k == hi {
        return None;
    }
    assert(s.subrange(0, k - lo) == chars@.subrange(lo as int, k as int));
    assert(s.subrange(k - lo + 1, s.len() as int) == chars@.subrange(k + 1, hi as int));
    let hour = parse_u8_range(chars, lo, k);
    let minute = parse_u8_range(chars, k + 1, hi);
    match (hour, minute) {
        (Some(hour), Some(minute)) => Some(Time { hour, minute }),
        _ => None,
    }
}

/// Appends the written form of `t` to `buf`.
pub fn push_time(buf: &mut Vec<char>, t: &Time)
    ensures
        final(buf)@ == old(buf)@ + time_text(*t),
{
    push_two_digit(buf, t.hour);
    buf.push(':');
    push_two_digit(buf, t.minute);
}

impl Time {
    /// Reads a time from `s`, which must hold nothing else: surrounding
    /// whitespace is not skipped.
    pub fn from_str(s: &str) -> (r: Result<Time, ()>)
        ensures
            r == match time_of_text(s@) {
                Some(t) => Ok::<Time, ()>(t),
                None => Err(()),
            },
    {
        let chars = chars_of(s);
        assert(chars@.subrange(0, chars.len() as int) == chars@);
        match parse_time_range(&chars, 0, chars.len()) {
            Some(t) => Ok(t),
            None => Err(()),
        }
    }

    /// The time as text, `HH:MM`.
    pub fn to_text(&self) -> (out: String)
        ensures
            out@ == time_text(*self),
    {
        let mut buf: Vec<char> = Vec::new();
        push_time(&mut buf, self);
        string_of(&buf)
    }
}

} // verus!
