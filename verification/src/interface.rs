//! Conversions between coordinate letters and the numbers 1..=8.

use vstd::prelude::*;

verus! {

pub open spec fn is_file_char(c: char) -> bool {
    'a' <= c <= 'h'
}

pub open spec fn is_rank_char(c: char) -> bool {
    '1' <= c <= '8'
}

/// The number of a file letter: 1 for `a` up to 8 for `h`.
pub fn file_to_i8(c: char) -> (r: i8)
    requires
        is_file_char(c),
    ensures
        r == c as u32 - 'a' as u32 + 1,
        1 <= r <= 8,
{
    ((c as u32 - 'a' as u32) as i8) + 1
}

/// The number of a rank digit: 1 for `1` up to 8 for `8`.
pub fn rank_to_i8(c: char) -> (r: i8)
    requires
        is_rank_char(c),
    ensures
        r == c as u32 - '1' as u32 + 1,
        1 <= r <= 8,
{
    ((c as u32 - '1' as u32) as i8) + 1
}

/// The letter of file `i`, counted from 1.
pub fn i8_to_file(i: i8) -> (c: char)
    requires
        1 <= i <= 8,
    ensures
        c as u32 == 'a' as u32 + i - 1,
        is_file_char(c),
{
    (97u8 + (i - 1) as u8) as char
}

/// The digit of rank `i`, counted from 1.
pub fn i8_to_rank(i: i8) -> (c: char)
    requires
        1 <= i <= 8,
    ensures
        c as u32 == '1' as u32 + i - 1,
        is_rank_char(c),
{
    (49u8 + (i - 1) as u8) as char
}

/// The distance between two numbers.
pub fn abs_diff_u16(a: u16, b: u16) -> (r: u16)
    ensures
        r == if a >= b { a - b } else { b - a },
{
    if a >= b {
        a - b
    } else {
        b - a
    }
}

} // verus!
