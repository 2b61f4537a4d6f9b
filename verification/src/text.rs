//! Reading unsigned decimal numbers out of text.

use vstd::prelude::*;
use vstd::string::StrSliceExecFns;

verus! {

pub open spec fn is_digit(c: char) -> bool {
    '0' <= c <= '9'
}

/// The value of a decimal digit.
pub open spec fn digit_value(c: char) -> int {
    c as int - '0' as int
}

pub open spec fn all_digits(s: Seq<char>) -> bool {
    forall|i: int| 0 <= i < s.len() ==> is_digit(#[trigger] s[i])
}

/// The number that a string of decimal digits spells, most significant
/// digit first.
pub open spec fn digits_value(s: Seq<char>) -> int
    decreases s.len(),
{
    if s.len() == 0 {
        0
    } else {
        10 * digits_value(s.drop_last()) + digit_value(s.last())
    }
}

/// The text of a number without its optional leading plus sign.
pub open spec fn unsigned_part(s: Seq<char>) -> Seq<char> {
    if s.len() > 0 && s[0] == '+' {
        s.skip(1)
    } else {
        s
    }
}

/// The number that `s` spells, where it spells one that is at most `max`:
/// an optional plus sign, then one or more decimal digits. Leading zeros
/// are accepted.
pub open spec fn decimal(s: Seq<char>, max: int) -> Option<int> {
    let digits = unsigned_part(s);
    if digits.len() > 0 && all_digits(digits) && digits_value(digits) <= max {
        Some(digits_value(digits))
    } else {
        None
    }
}

/// A string of digits spells no less than any of its beginnings.
pub proof fn lemma_digits_value_grows(s: Seq<char>, n: int)
    requires
        all_digits(s),
        0 <= n <= s.len(),
    ensures
        0 <= digits_value(s.take(n)) <= digits_value(s),
    decreases s.len() - n,
{
    if n == s.len() {
        assert(s.take(n) =~= s);
        lemma_digits_value_nonnegative(s);
    } else {
        let front = s.drop_last();
        assert(front.take(n) =~= s.take(n));
        lemma_digits_value_grows(front, n);
        assert(is_digit(s.last()));
    }
}

proof fn lemma_digits_value_nonnegative(s: Seq<char>)
    requires
        all_digits(s),
    ensures
        0 <= digits_value(s),
    decreases s.len(),
{
    if s.len() > 0 {
        lemma_digits_value_nonnegative(s.drop_last());
        assert(is_digit(s.last()));
    }
}

/// The characters of a string.
pub fn to_chars(text: &str) -> (chars: Vec<char>)
    ensures
        chars@ == text@,
{
    let n: usize = text.unicode_len();
    let mut chars: Vec<char> = Vec::new();
    let mut i: usize = 0;
    while i < n
        invariant
            n == text@.len(),
            0 <= i <= n,
            chars@ == text@.take(i as int),
        decreases n - i,
    {
        chars.push(text.get_char(i));
        i = i + 1;
        assert(chars@ =~= text@.take(i as int));
    }
    assert(chars@ =~= text@);
    chars
}

/// Reads the characters of `word` from `from` up to `to` as a decimal
/// number that is at most `max`.
pub fn parse_decimal(word: &Vec<char>, from: usize, to: usize, max: u16) -> (number: Option<u16>)
    requires
        from <= to <= word@.len(),
    ensures
        match number {
            Some(n) => decimal(word@.subrange(from as int, to as int), max as int) == Some(
                n as int,
            ),
            None => decimal(word@.subrange(from as int, to as int), max as int) is None,
        },
{
    let ghost text = word@.subrange(from as int, to as int);
    let mut first: usize = from;
    if first < to && word[first] == '+' {
        first = first + 1;
    }
    let ghost digits = word@.subrange(first as int, to as int);
    assert(digits =~= unsigned_part(text));
    if first == to {
        return None;
    }
    let mut value: u32 = 0;
    let mut k: usize = first;
    while k < to
        invariant
            from <= first <= k <= to <= word@.len(),
            first < to,
            digits == word@.subrange(first as int, to as int),
            digits == unsigned_part(word@.subrange(from as int, to as int)),
            all_digits(digits.take(k - first)),
            value == digits_value(digits.take(k - first)),
            value <= max,
        decreases to - k,
    {
        let c: char = word[k];
        if !(c >= '0' && c <= '9') {
            assert(!is_digit(digits[k - first]));
            return None;
        }
        let digit: u32 = (c as u32) - 48;
        value = value * 10 + digit;
        proof {
            let longer = digits.take(k + 1 - first);
            assert(longer.drop_last() =~= digits.take(k - first));
            assert(longer.last() == c);
            assert(all_digits(longer));
        }
        if value > max as u32 {
            proof {
                if all_digits(digits) {
                    lemma_digits_value_grows(digits, k + 1 - first);
                }
            }
            return None;
        }
        k = k + 1;
    }
    assert(digits.take(k - first) =~= digits);
    Some(value as u16)
}

} // verus!
