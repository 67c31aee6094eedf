//! Byte classes of the PDF syntax.

use vstd::prelude::*;
use crate::error::ParseError;

verus! {

/// The six white-space bytes: NUL, TAB, LF, FF, CR and SPACE.
pub open spec fn white(b: u8) -> bool {
    b == 0 || b == 9 || b == 10 || b == 12 || b == 13 || b == 32
}

/// The ten delimiter bytes: `( ) < > [ ] { } / %`.
pub open spec fn delimiter(b: u8) -> bool {
    b == 0x28 || b == 0x29 || b == 0x3c || b == 0x3e || b == 0x5b || b == 0x5d || b == 0x7b
        || b == 0x7d || b == 0x2f || b == 0x25
}

/// A regular byte is neither white-space nor a delimiter.
pub open spec fn regular(b: u8) -> bool {
    !white(b) && !delimiter(b)
}

/// An ASCII decimal digit.
pub open spec fn digit(b: u8) -> bool {
    0x30 <= b <= 0x39
}

/// A byte that may start or continue a number: a sign, a dot or a digit.
pub open spec fn number_byte(b: u8) -> bool {
    b == 0x2b || b == 0x2d || b == 0x2e || digit(b)
}

/// An octal digit, `0` to `7`.
pub open spec fn octal_digit(b: u8) -> bool {
    0x30 <= b <= 0x37
}

/// The value of a hexadecimal digit, or `None` for any other byte.
pub open spec fn hex_value(b: u8) -> Option<u8> {
    if 0x30 <= b <= 0x39 {
        Some((b - 0x30) as u8)
    } else if 0x61 <= b <= 0x66 {
        Some((b - 0x61 + 10) as u8)
    } else if 0x41 <= b <= 0x46 {
        Some((b - 0x41 + 10) as u8)
    } else {
        None
    }
}

/// Whether `ch` is a white-space byte.
pub fn is_white(ch: u8) -> (r: bool)
    ensures
        r == white(ch),
{
    ch == 0 || ch == 9 || ch == 10 || ch == 12 || ch == 13 || ch == 32
}

/// Whether `c` is a delimiter.
pub fn is_delimiter(c: u8) -> (r: bool)
    ensures
        r == delimiter(c),
{
    c == 0x28 || c == 0x29 || c == 0x3c || c == 0x3e || c == 0x5b || c == 0x5d || c == 0x7b
        || c == 0x7d || c == 0x2f || c == 0x25
}

/// Whether `ch` is neither white-space nor a delimiter.
pub fn is_regular(ch: u8) -> (r: bool)
    ensures
        r == regular(ch),
{
    !is_white(ch) && !is_delimiter(ch)
}

/// Whether `ch` may stand in a number: a sign, a dot or a digit.
pub fn is_number(ch: u8) -> (r: bool)
    ensures
        r == number_byte(ch),
{
    ch == 0x2b || ch == 0x2d || ch == 0x2e || (0x30 <= ch && ch <= 0x39)
}

/// Whether `ch` is a decimal digit.
pub fn is_digit(ch: u8) -> (r: bool)
    ensures
        r == digit(ch),
{
    0x30 <= ch && ch <= 0x39
}

/// Whether `ch` is an octal digit.
pub fn is_octal(ch: u8) -> (r: bool)
    ensures
        r == octal_digit(ch),
{
    0x30 <= ch && ch <= 0x37
}

/// The value of one hexadecimal digit; an error when `c0` is not one.
pub fn hex_to_char(c0: u8) -> (r: Result<u8, ParseError>)
    ensures
        match r {
            Ok(v) => hex_value(c0) == Some(v) && v < 16,
            Err(e) => hex_value(c0) is None && e.msg@ == "not hex"@,
        },
{
    if 0x30 <= c0 && c0 <= 0x39 {
        Ok(c0 - 0x30)
    } else if 0x61 <= c0 && c0 <= 0x66 {
        Ok(c0 - 0x61 + 10)
    } else if 0x41 <= c0 && c0 <= 0x46 {
        Ok(c0 - 0x41 + 10)
    } else {
        Err(ParseError::new("not hex"))
    }
}

} // verus!
