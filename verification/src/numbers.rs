//! Decimal numbers: what a run of digits is worth, and reading a text as a
//! 32-bit integer.

use crate::grammar::decimal_value;
use crate::grammar::digit_value;
use crate::grammar::digits_len;
use crate::rules::digit;
use crate::rules::is_digit;
use vstd::prelude::*;

verus! {

/// Every character of the text is a digit.
pub open spec fn all_digits(s: Seq<char>) -> bool {
    forall|i: int| 0 <= i < s.len() ==> is_digit(#[trigger] s[i])
}

/// The 32-bit integer that a text writes: an optional sign, `+` or `-`,
/// then one digit or more, with a value from `i32::MIN` to `i32::MAX`.
pub open spec fn integer_of(s: Seq<char>) -> Option<i32> {
    let signed = s.len() > 0 && (s[0] == '-' || s[0] == '+');
    let negative = s.len() > 0 && s[0] == '-';
    let digits = if signed {
        s.subrange(1, s.len() as int)
    } else {
        s
    };
    let magnitude = decimal_value(digits);
    if digits.len() == 0 || !all_digits(digits) {
        None
    } else if negative {
        if magnitude <= 2147483648 {
            Some((-magnitude) as i32)
        } else {
            None
        }
    } else if magnitude <= 2147483647 {
        Some(magnitude as i32)
    } else {
        None
    }
}

/// The position after the run of digits that starts at `from`.
pub(crate) fn skip_digits(chars: &Vec<char>, from: usize) -> (r: usize)
    requires
        from <= chars.len(),
    ensures
        r == from + digits_len(chars@, from as int),
        from <= r <= chars.len(),
        forall|k: int| from <= k < r ==> is_digit(#[trigger] chars@[k]),
        r < chars.len() ==> !is_digit(chars@[r as int]),
{
    let mut j: usize = from;
    while j < chars.len() && digit(chars[j])
        invariant
            from <= j <= chars.len(),
            digits_len(chars@, from as int) == (j - from) + digits_len(chars@, j as int),
            forall|k: int| from <= k < j ==> is_digit(#[trigger] chars@[k]),
        decreases chars.len() - j,
    {
        j += 1;
    }
    j
}

/// The value of the digits `chars[from..to]`, unless it is above `limit`.
pub(crate) fn decimal_within(chars: &Vec<char>, from: usize, to: usize, limit: i64) -> (r: Option<i64>)
    requires
        from <= to <= chars.len(),
        forall|k: int| from <= k < to ==> is_digit(#[trigger] chars@[k]),
        0 <= limit <= 2147483648,
    ensures
        match r {
            Some(v) => decimal_value(chars@.subrange(from as int, to as int)) == v && v <= limit,
            None => decimal_value(chars@.subrange(from as int, to as int)) > limit,
        },
{
    let mut value: i64 = 0;
    let mut over = false;
    let mut k: usize = from;
    assert(chars@.subrange(from as int, from as int) =~= Seq::<char>::empty());
    while k < to
        invariant
            from <= k <= to <= chars.len(),
            forall|k: int| from <= k < to ==> is_digit(#[trigger] chars@[k]),
            0 <= limit <= 2147483648,
            !over ==> 0 <= value <= limit && value == decimal_value(
                chars@.subrange(from as int, k as int),
            ),
            over ==> decimal_value(chars@.subrange(from as int, k as int)) > limit,
        decreases to - k,
    {
        let c = chars[k];
        assert(is_digit(chars@[k as int]));
        let d: i64 = (c as u32 - '0' as u32) as i64;
        proof {
            let longer = chars@.subrange(from as int, k + 1);
            assert(longer.drop_last() =~= chars@.subrange(from as int, k as int));
            assert(longer.last() == c);
            assert(d == digit_value(c));
        }
        if !over {
            let next: i64 = value * 10 + d;
            if next > limit {
                over = true;
            } else {
                value = next;
            }
        }
        k += 1;
    }
    if over {
        None
    } else {
        Some(value)
    }
}

/// Reads the characters as a 32-bit integer.
pub(crate) fn parse_integer(chars: &Vec<char>) -> (r: Option<i32>)
    ensures
        r == integer_of(chars@),
{
    let n = chars.len();
    if n == 0 {
        return None;
    }
    let negative = chars[0] == '-';
    let start: usize = if negative || chars[0] == '+' {
        1
    } else {
        0
    };
    let ghost digits = chars@.subrange(start as int, n as int);
    assert(start == 0 ==> digits =~= chars@);
    if start == n {
        return None;
    }
    let end = skip_digits(chars, start);
    if end != n {
        assert(!is_digit(digits[end - start]));
        return None;
    }
    assert(all_digits(digits));
    let limit: i64 = if negative {
        2147483648
    } else {
        2147483647
    };
    match decimal_within(chars, start, n, limit) {
        Some(v) => {
            if negative {
                Some((0 - v) as i32)
            } else {
                Some(v as i32)
            }
        },
        None => None,
    }
}

} // verus!
