//! Numerals: the value of a run of digits, and the text of a value.

use vstd::prelude::*;
use crate::chars::is_ascii_digit;

verus! {

/// The value of the ASCII digit `c`.
pub open spec fn digit_value(c: char) -> int {
    c as int - '0' as int
}

/// The ASCII digit of value `d`, for `d` from 0 to 9.
pub open spec fn digit_char(d: int) -> char {
    ('0' as int + d) as char
}

/// Whether `text` holds ASCII digits only.
pub open spec fn all_ascii_digits(text: Seq<char>) -> bool {
    forall|i: int| 0 <= i < text.len() ==> is_ascii_digit(#[trigger] text[i])
}

/// The number that the ASCII digits of `digits` write in base ten.
pub open spec fn decimal_value(digits: Seq<char>) -> int
    decreases digits.len(),
{
    if digits.len() == 0 {
        0
    } else {
        decimal_value(digits.drop_last()) * 10 + digit_value(digits.last())
    }
}

/// The value of `text` as a whole number: `text` is one or more ASCII digits
/// and the number they write is at most `i32::MAX`. Any other text has no
/// value.
pub open spec fn integer_value(text: Seq<char>) -> Option<i32> {
    if text.len() > 0 && all_ascii_digits(text) && decimal_value(text) <= i32::MAX {
        Some(decimal_value(text) as i32)
    } else {
        None
    }
}

/// Whether `text` writes a number with a decimal point: ASCII digits, at
/// least one, and among them exactly one point.
pub open spec fn is_float_literal(text: Seq<char>) -> bool {
    &&& text.len() >= 2
    &&& exists|point: int|
        {
            &&& 0 <= point < text.len()
            &&& #[trigger] text[point] == '.'
            &&& forall|i: int|
                0 <= i < text.len() && i != point ==> is_ascii_digit(#[trigger] text[i])
        }
}

/// How many characters it takes to write `v` in base ten, the sign of a
/// negative number included.
pub open spec fn decimal_len(v: int) -> nat
    decreases (if v < 0 {
        1 - v
    } else {
        v
    }),
{
    if v < 0 {
        1 + decimal_len(-v)
    } else if v < 10 {
        1
    } else {
        1 + decimal_len(v / 10)
    }
}

/// The digits that write `v` in base ten, for `v` not negative.
pub open spec fn decimal_text(v: int) -> Seq<char>
    decreases v,
{
    if v < 10 {
        seq![digit_char(v)]
    } else {
        decimal_text(v / 10).push(digit_char(v % 10))
    }
}

/// The digits read so far never write more than all the digits do.
pub proof fn lemma_decimal_value_prefix(digits: Seq<char>, n: int)
    requires
        all_ascii_digits(digits),
        0 <= n <= digits.len(),
    ensures
        0 <= decimal_value(digits.take(n)) <= decimal_value(digits),
    decreases digits.len(),
{
    if digits.len() == 0 {
        assert(digits.take(n) =~= digits);
    } else if n == digits.len() {
        assert(digits.take(n) =~= digits);
        lemma_decimal_value_prefix(digits.drop_last(), n - 1);
        assert(digits.drop_last().take(n - 1) =~= digits.drop_last());
    } else {
        lemma_decimal_value_prefix(digits.drop_last(), n);
        assert(digits.drop_last().take(n) =~= digits.take(n));
    }
}

/// Writing a number and reading the digits back gives the number: the text
/// of `v` holds ASCII digits only, as many as `decimal_len` says, and their
/// value is `v`.
pub proof fn lemma_decimal_text(v: int)
    requires
        0 <= v,
    ensures
        all_ascii_digits(decimal_text(v)),
        decimal_text(v).len() == decimal_len(v),
        decimal_value(decimal_text(v)) == v,
    decreases v,
{
    if v < 10 {
        let text = decimal_text(v);
        assert(text.drop_last() =~= Seq::<char>::empty());
        assert(decimal_value(text.drop_last()) == 0);
    } else {
        lemma_decimal_text(v / 10);
        let text = decimal_text(v);
        assert(text.drop_last() =~= decimal_text(v / 10));
    }
}

/// A 32-bit number is written with at least one character and at most
/// eleven.
pub proof fn lemma_decimal_len_bounds(v: int)
    requires
        i32::MIN <= v <= i32::MAX,
    ensures
        1 <= decimal_len(v) <= 11,
{
    reveal_with_fuel(decimal_len, 12);
}

/// The value of `text` as a whole number, if it has one.
pub fn parse_integer(text: &Vec<char>) -> (value: Option<i32>)
    ensures
        value == integer_value(text@),
{
    if text.len() == 0 {
        return None;
    }
    let mut acc: i32 = 0;
    let mut i: usize = 0;
    while i < text.len()
        invariant
            i <= text.len(),
            all_ascii_digits(text@.take(i as int)),
            acc == decimal_value(text@.take(i as int)),
            0 <= acc,
        decreases text.len() - i,
    {
        let c = text[i];
        if !(c >= '0' && c <= '9') {
            return None;
        }
        let d: i32 = (c as u32 - '0' as u32) as i32;
        proof {
            assert(text@.take(i + 1).drop_last() =~= text@.take(i as int));
            assert(all_ascii_digits(text@.take(i + 1))) by {
                assert forall|k: int| 0 <= k < i + 1 implies is_ascii_digit(
                    #[trigger] text@.take(i + 1)[k],
                ) by {
                    if k < i {
                        assert(text@.take(i as int)[k] == text@[k]);
                    }
                }
            }
        }
        if acc > (i32::MAX - d) / 10 {
            proof {
                if all_ascii_digits(text@) {
                    lemma_decimal_value_prefix(text@, i + 1);
                }
            }
            return None;
        }
        acc = acc * 10 + d;
        i += 1;
    }
    proof {
        assert(text@.take(text.len() as int) =~= text@);
    }
    Some(acc)
}

/// Tells whether `text` writes a number with a decimal point.
pub fn is_float_text(text: &Vec<char>) -> (r: bool)
    ensures
        r == is_float_literal(text@),
{
    let mut found: bool = false;
    let mut point: usize = 0;
    let mut i: usize = 0;
    while i < text.len()
        invariant
            i <= text.len(),
            found ==> point < i && text@[point as int] == '.',
            forall|k: int|
                0 <= k < i && !(found && k == point) ==> is_ascii_digit(#[trigger] text@[k]),
        decreases text.len() - i,
    {
        let c = text[i];
        if c == '.' {
            if found {
                return false;
            }
            found = true;
            point = i;
        } else if !(c >= '0' && c <= '9') {
            return false;
        }
        i += 1;
    }
    found && text.len() >= 2
}

/// How many characters it takes to write `v` in base ten, the sign of a
/// negative number included.
pub fn decimal_length(v: i32) -> (len: usize)
    ensures
        len == decimal_len(v as int),
{
    let n: i64 = if v < 0 {
        -(v as i64)
    } else {
        v as i64
    };
    proof {
        reveal_with_fuel(decimal_len, 12);
    }
    let digits: usize = if n < 10 {
        1
    } else if n < 100 {
        2
    } else if n < 1_000 {
        3
    } else if n < 10_000 {
        4
    } else if n < 100_000 {
        5
    } else if n < 1_000_000 {
        6
    } else if n < 10_000_000 {
        7
    } else if n < 100_000_000 {
        8
    } else if n < 1_000_000_000 {
        9
    } else {
        10
    };
    if v < 0 {
        digits + 1
    } else {
        digits
    }
}

} // verus!
