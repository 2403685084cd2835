//! Groups of four symbols and the three bytes that they pack.

use crate::character::Character;
use crate::error::Error;
use vstd::prelude::*;

verus! {

/// The first byte of a group: the six bits of `s1`, then the upper two of
/// `s2`.
pub open spec fn first_byte(s1: u8, s2: u8) -> u8 {
    (s1 << 2) | (s2 >> 4)
}

/// The second byte of a group: the lower four bits of `s2`, then the upper
/// four of `s3`.
pub open spec fn second_byte(s2: u8, s3: u8) -> u8 {
    (s2 << 4) | (s3 >> 2)
}

/// The third byte of a group: the lower two bits of `s3`, then the six of
/// `s4`.
pub open spec fn third_byte(s3: u8, s4: u8) -> u8 {
    (s3 << 6) | s4
}

/// What a group of four symbols decodes to.
///
/// Four values give three bytes. Three values and one padding mark give two
/// bytes, two values and two padding marks give one. An absent byte is
/// `None`. Every byte is handed out as the character with that code. Any
/// other group is refused, and the error shows its four symbols.
pub open spec fn group_bytes(
    s1: Character,
    s2: Character,
    s3: Character,
    s4: Character,
) -> Result<[Option<char>; 3], Error> {
    match (s1, s2, s3, s4) {
        (Character::B64(a), Character::B64(b), Character::B64(c), Character::B64(d)) => Ok(
            [
                Some(first_byte(a, b) as char),
                Some(second_byte(b, c) as char),
                Some(third_byte(c, d) as char),
            ],
        ),
        (Character::B64(a), Character::B64(b), Character::B64(c), Character::Padding) => Ok(
            [Some(first_byte(a, b) as char), Some(second_byte(b, c) as char), None],
        ),
        (Character::B64(a), Character::B64(b), Character::Padding, Character::Padding) => Ok(
            [Some(first_byte(a, b) as char), None, None],
        ),
        _ => Err(Error::InvalidBytes([s1.shown(), s2.shown(), s3.shown(), s4.shown()])),
    }
}

/// Converts a slice of exactly four symbols into three bytes.
pub fn convert_to_ascii_bytes_from_array(bytes: &[Character]) -> (outcome: Result<
    [Option<char>; 3],
    Error,
>)
    requires
        bytes@.len() == 4,
    ensures
        outcome == group_bytes(bytes@[0], bytes@[1], bytes@[2], bytes@[3]),
{
    convert_to_ascii_bytes(bytes[0], bytes[1], bytes[2], bytes[3])
}

/// Converts four base64 symbols into three bytes.
pub fn convert_to_ascii_bytes(
    byte_1: Character,
    byte_2: Character,
    byte_3: Character,
    byte_4: Character,
) -> (outcome: Result<[Option<char>; 3], Error>)
    ensures
        outcome == group_bytes(byte_1, byte_2, byte_3, byte_4),
{
    match (byte_1, byte_2, byte_3, byte_4) {
        (Character::B64(a), Character::B64(b), Character::B64(c), Character::B64(d)) => Ok(
            [
                Some((a << 2 | b >> 4) as char),
                Some((b << 4 | c >> 2) as char),
                Some((c << 6 | d) as char),
            ],
        ),
        (Character::B64(a), Character::B64(b), Character::B64(c), Character::Padding) => Ok(
            [Some((a << 2 | b >> 4) as char), Some((b << 4 | c >> 2) as char), None],
        ),
        (Character::B64(a), Character::B64(b), Character::Padding, Character::Padding) => Ok(
            [Some((a << 2 | b >> 4) as char), None, None],
        ),
        _ => Err(
            Error::InvalidBytes([byte_1.into(), byte_2.into(), byte_3.into(), byte_4.into()]),
        ),
    }
}

} // verus!
