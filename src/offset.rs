//! Reading a UTC offset, in whole hours, from the decimal text that the
//! time zone service sends.
use vstd::prelude::*;
use vstd::string::*;

verus! {

/// A decimal digit.
pub open spec fn is_digit(c: char) -> bool {
    '0' <= c && c <= '9'
}

pub open spec fn digit_value(c: char) -> int {
    c as int - '0' as int
}

pub open spec fn all_digits(s: Seq<char>) -> bool {
    forall|i: int| 0 <= i < s.len() ==> is_digit(#[trigger] s[i])
}

/// The number that a run of decimal digits spells, most significant first.
pub open spec fn decimal_value(s: Seq<char>) -> int
    decreases s.len(),
{
    if s.len() == 0 {
        0
    } else {
        10 * decimal_value(s.drop_last()) + digit_value(s.last())
    }
}

/// The digits of a signed decimal text: what follows an optional leading sign.
pub open spec fn unsigned_part(s: Seq<char>) -> Seq<char> {
    if s.len() > 0 && (s[0] == '-' || s[0] == '+') {
        s.skip(1)
    } else {
        s
    }
}

/// The integer that a text spells: an optional `+` or `-`, then one or
/// more decimal digits, and nothing else.
pub open spec fn signed_decimal(s: Seq<char>) -> Option<int> {
    let d = unsigned_part(s);
    if d.len() == 0 || !all_digits(d) {
        None
    } else if s[0] == '-' {
        Some(-decimal_value(d))
    } else {
        Some(decimal_value(d))
    }
}

/// The offset that a text gives: a signed decimal that fits in an `i8`.
pub open spec fn offset_of_text(s: Seq<char>) -> Option<i8> {
    match signed_decimal(s) {
        Some(v) => if -128 <= v <= 127 {
            Some(v as i8)
        } else {
            None
        },
        None => None,
    }
}

/// Past this bound the exact value of the digits no longer matters.
const SATURATION: u32 = 1000;

pub open spec fn saturated(v: int) -> int {
    if v < 1000 {
        v
    } else {
        1000
    }
}

/// Parses an offset field as a signed 8-bit integer: an optional sign and
/// decimal digits, in range; anything else is `None`.
pub fn parse_offset(text: &str) -> (r: Option<i8>)
    ensures
        r == offset_of_text(text@),
{
    let n = text.unicode_len();
    if n == 0 {
        return None;
    }
    let first = text.get_char(0);
    let negative = first == '-';
    let start: usize = if first == '-' || first == '+' {
        1
    } else {
        0
    };
    let ghost digits = unsigned_part(text@);
    assert(digits == text@.subrange(start as int, n as int));
    if start == n {
        return None;
    }
    let mut acc: u32 = 0;
    let mut i: usize = start;
    while i < n
        invariant
            start <= i <= n,
            n == text@.len(),
            digits == unsigned_part(text@),
            digits == text@.subrange(start as int, n as int),
            negative == (text@[0] == '-'),
            all_digits(text@.subrange(start as int, i as int)),
            acc as int == saturated(decimal_value(text@.subrange(start as int, i as int))),
        decreases n - i,
    {
        let c = text.get_char(i);
        if !('0' <= c && c <= '9') {
            assert(digits[i - start] == c);
            assert(!is_digit(digits[i - start]));
            return None;
        }
        let d: u32 = (c as u32) - ('0' as u32);
        let ghost prefix = text@.subrange(start as int, i as int);
        let ghost next = text@.subrange(start as int, i + 1);
        assert(next.drop_last() == prefix);
        assert(next.last() == c);
        if acc >= SATURATION {
            acc = SATURATION;
        } else {
            let v: u32 = acc * 10 + d;
            acc = if v > SATURATION {
                SATURATION
            } else {
                v
            };
        }
        i = i + 1;
    }
    assert(text@.subrange(start as int, n as int) == digits);
    if negative {
        if acc <= 128 {
            Some((0 - acc as i32) as i8)
        } else {
            None
        }
    } else if acc <= 127 {
        Some(acc as i8)
    } else {
        None
    }
}

} // verus!
