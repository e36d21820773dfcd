//! Hexadecimal rendering of bytes.
use vstd::prelude::*;

verus! {

/// The upper-case hexadecimal digit that stands for `n`, when `n < 16`.
pub open spec fn hex_digit(n: u8) -> Option<char> {
    if n < 10 {
        Some((48 + n) as char)
    } else if n < 16 {
        Some((55 + n) as char)
    } else {
        None
    }
}

/// The two upper-case hexadecimal digits of `byte`, high nibble first.
pub fn hex(byte: u8) -> (digits: [char; 2])
    ensures
        Some(digits[0]) == hex_digit(byte / 16),
        Some(digits[1]) == hex_digit(byte % 16),
{
    let l: u8 = byte / 16;
    let r: u8 = byte % 16;
    [hex_one_char(l).unwrap(), hex_one_char(r).unwrap()]
}

/// The upper-case hexadecimal digit for `byte`, or `None` when `byte` is 16 or more.
pub fn hex_one_char(byte: u8) -> (c: Option<char>)
    ensures
        c == hex_digit(byte),
{
    match byte {
        0 => Some('0'),
        1 => Some('1'),
        2 => Some('2'),
        3 => Some('3'),
        4 => Some('4'),
        5 => Some('5'),
        6 => Some('6'),
        7 => Some('7'),
        8 => Some('8'),
        9 => Some('9'),
        10 => Some('A'),
        11 => Some('B'),
        12 => Some('C'),
        13 => Some('D'),
        14 => Some('E'),
        15 => Some('F'),
        _ => None,
    }
}

/// The hexadecimal digits are `0` to `9` and then `A` to `F`, in that order,
/// and nothing is a digit from 16 on.
pub proof fn lemma_hex_digits(n: u8)
    ensures
        n < 16 ==> hex_digit(n) == Some("0123456789ABCDEF"@[n as int]),
        n >= 16 ==> hex_digit(n) is None,
{
    reveal_strlit("0123456789ABCDEF");
}

} // verus!
