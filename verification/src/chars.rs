//! Character classes used by the scanner.

use vstd::prelude::*;

verus! {

/// Whether `c` is one of the 128 ASCII characters.
pub open spec fn is_ascii_char(c: char) -> bool {
    (c as u32) < 128
}

/// Whether `c` has the Unicode `White_Space` property.
pub uninterp spec fn unicode_white_space(c: char) -> bool;

/// Whether `c` has the Unicode `Alphabetic` property.
pub uninterp spec fn unicode_alphabetic(c: char) -> bool;

/// Whether `c` is in one of the Unicode categories of numbers.
pub uninterp spec fn unicode_numeric(c: char) -> bool;

/// `char::is_whitespace` tells whether the character has the Unicode
/// `White_Space` property. Which characters have it is not stated here.
pub assume_specification[ char::is_whitespace ](c: char) -> (r: bool)
    ensures
        r == unicode_white_space(c),
;

/// `char::is_alphabetic` tells whether the character has the Unicode
/// `Alphabetic` property. Which characters have it is not stated here.
pub assume_specification[ char::is_alphabetic ](c: char) -> (r: bool)
    ensures
        r == unicode_alphabetic(c),
;

/// `char::is_numeric` tells whether the character is in one of the Unicode
/// categories of numbers. Which characters are is not stated here.
pub assume_specification[ char::is_numeric ](c: char) -> (r: bool)
    ensures
        r == unicode_numeric(c),
;

/// Whether `c` is one of the ten ASCII digits.
pub open spec fn is_ascii_digit(c: char) -> bool {
    '0' <= c && c <= '9'
}

/// Whether `c` separates tokens: of the ASCII characters the tab, the line
/// feed, the vertical tab, the form feed, the carriage return and the space,
/// and beyond ASCII what Unicode holds to be white space.
pub open spec fn is_space_char(c: char) -> bool {
    if is_ascii_char(c) {
        c == ' ' || ('\t' <= c && c <= '\r')
    } else {
        unicode_white_space(c)
    }
}

/// Whether `c` may stand in an identifier: of the ASCII characters the
/// letters and the underscore, and beyond ASCII what Unicode holds to be
/// alphabetic.
pub open spec fn is_letter_char(c: char) -> bool {
    if is_ascii_char(c) {
        ('a' <= c && c <= 'z') || ('A' <= c && c <= 'Z') || c == '_'
    } else {
        unicode_alphabetic(c)
    }
}

/// Whether `c` may stand in a numeral as a digit: of the ASCII characters
/// the ten digits, and beyond ASCII what Unicode holds to be a number. Only
/// the ASCII digits write a number; any other makes its numeral malformed.
pub open spec fn is_digit_char(c: char) -> bool {
    if is_ascii_char(c) {
        is_ascii_digit(c)
    } else {
        unicode_numeric(c)
    }
}

/// Tells whether `c` separates tokens.
pub fn is_space(c: char) -> (r: bool)
    ensures
        r == is_space_char(c),
{
    if (c as u32) < 128 {
        c == ' ' || ('\t' <= c && c <= '\r')
    } else {
        c.is_whitespace()
    }
}

/// Tells whether `ch` is a letter or the underscore.
pub fn is_letter(ch: char) -> (r: bool)
    ensures
        r == is_letter_char(ch),
{
    if (ch as u32) < 128 {
        ('a' <= ch && ch <= 'z') || ('A' <= ch && ch <= 'Z') || ch == '_'
    } else {
        ch.is_alphabetic()
    }
}

/// Tells whether `c` may stand in a numeral as a digit.
pub fn is_digit(c: char) -> (r: bool)
    ensures
        r == is_digit_char(c),
{
    if (c as u32) < 128 {
        '0' <= c && c <= '9'
    } else {
        c.is_numeric()
    }
}

/// The classes of characters of which the scanner reads whole runs.
#[derive(Debug, Clone, Copy, PartialEq, Eq, Structural)]
pub enum CharClass {
    /// What separates tokens.
    Space,
    /// What an identifier is made of.
    Letter,
    /// What a numeral is made of: digits, the decimal point and the
    /// underscore that groups digits.
    NumeralPart,
    /// What a line holds before it ends: anything but a line feed.
    LineText,
}

impl CharClass {
    /// Whether `c` belongs to the class.
    pub open spec fn contains(self, c: char) -> bool {
        match self {
            CharClass::Space => is_space_char(c),
            CharClass::Letter => is_letter_char(c),
            CharClass::NumeralPart => is_digit_char(c) || c == '.' || c == '_',
            CharClass::LineText => c != '\n',
        }
    }

    /// Tells whether `c` belongs to the class.
    pub fn admits(&self, c: char) -> (r: bool)
        ensures
            r == self.contains(c),
    {
        match self {
            CharClass::Space => is_space(c),
            CharClass::Letter => is_letter(c),
            CharClass::NumeralPart => is_digit(c) || c == '.' || c == '_',
            CharClass::LineText => c != '\n',
        }
    }
}

} // verus!
