//! Numbers in digits.

use crate::text;
use vstd::prelude::*;

verus! {

/// Whether a text is a number in digits.
pub open spec fn is_number(s: Seq<char>) -> bool {
    s.len() > 0 && forall|i: int| 0 <= i < s.len() ==> '0' <= #[trigger] s[i] <= '9'
}

/// The number that digits stand for.
pub open spec fn number(s: Seq<char>) -> nat
    decreases s.len(),
{
    if s.len() == 0 {
        0
    } else {
        number(s.drop_last()) * 10 + (s.last() as nat - '0' as nat) as nat
    }
}

/// The number that a text stands for, where it is one that fits.
pub open spec fn parsed_number(s: Seq<char>) -> Option<u64> {
    if is_number(s) && number(s) <= u64::MAX {
        Some(number(s) as u64)
    } else {
        None
    }
}

fn is_digit(c: char) -> (yes: bool)
    ensures
        yes == ('0' <= c <= '9'),
{
    '0' <= c && c <= '9'
}

pub fn digits_only(chars: &Vec<char>) -> (yes: bool)
    ensures
        yes == is_number(chars@),
{
    let mut k: usize = 0;
    while k < chars.len()
        invariant
            k <= chars@.len(),
            forall|i: int| 0 <= i < k ==> '0' <= #[trigger] chars@[i] <= '9',
        decreases chars@.len() - k,
    {
        if !is_digit(chars[k]) {
            return false;
        }
        k = k + 1;
    }
    chars.len() > 0
}

proof fn lemma_number_grows(s: Seq<char>, k: int)
    requires
        0 <= k <= s.len(),
        forall|i: int| 0 <= i < s.len() ==> '0' <= #[trigger] s[i] <= '9',
    ensures
        number(s.take(k)) <= number(s),
    decreases s.len(),
{
    if k < s.len() {
        assert(s.drop_last().take(k) =~= s.take(k));
        lemma_number_grows(s.drop_last(), k);
    } else {
        assert(s.take(k) =~= s);
    }
}

/// Reads a number.
pub fn parse_number(source: &str) -> (value: Option<u64>)
    ensures
        value == parsed_number(source@),
{
    let chars = text::chars_of(source);
    if !digits_only(&chars) {
        return None;
    }
    let mut value: u64 = 0;
    let mut k: usize = 0;
    while k < chars.len()
        invariant
            k <= chars@.len(),
            chars@ == source@,
            is_number(chars@),
            value == number(chars@.take(k as int)),
        decreases chars@.len() - k,
    {
        let digit: u64 = (chars[k] as u32 - '0' as u32) as u64;
        proof {
            assert(chars@.take(k + 1).drop_last() =~= chars@.take(k as int));
            assert(chars@.take(k + 1).last() == chars@[k as int]);
            lemma_number_grows(chars@, k + 1);
        }
        if value > (u64::MAX - digit) / 10 {
            return None;
        }
        value = value * 10 + digit;
        k = k + 1;
    }
    assert(chars@.take(k as int) =~= chars@);
    Some(value)
}

/// The number that a text stands for, with or without a plus in front, where it
/// is one that fits.
pub open spec fn parsed_unsigned(s: Seq<char>) -> Option<u64> {
    if s.len() > 0 && s[0] == '+' {
        parsed_number(s.skip(1))
    } else {
        parsed_number(s)
    }
}

/// Reads a number, with or without a plus in front.
pub fn parse_unsigned(source: &str) -> (value: Option<u64>)
    ensures
        value == parsed_unsigned(source@),
{
    let chars = text::chars_of(source);
    if chars.len() > 0 && chars[0] == '+' {
        let rest = text::text_of(&chars, 1, chars.len());
        assert(chars@.subrange(1, chars@.len() as int) =~= chars@.skip(1));
        return parse_number(rest.as_str());
    }
    parse_number(source)
}

} // verus!
