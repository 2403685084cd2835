//! The Base64 alphabet: which character stands for which symbol.

use crate::character::Character;
use crate::error::Error;
use vstd::prelude::*;

verus! {

const NUMBER_OFFSET: i8 = 4;

const LOWERCASE_OFFSET: i8 = -71;

const UPPERCASE_OFFSET: i8 = -65;

const PLUS_ID: u8 = 62;

const SLASH_ID: u8 = 63;

const PLUS: u8 = 43;

const SLASH: u8 = 47;

const PADDING: u8 = 61;

/// The symbol that a character stands for.
///
/// `A`-`Z` are the values 0 to 25, `a`-`z` the values 26 to 51, `0`-`9` the
/// values 52 to 61, `+` is 62 and `/` is 63. `=` is the padding mark. Every
/// other character is refused, and the error carries it.
pub open spec fn classify(character: char) -> Result<Character, Error> {
    if 'A' <= character <= 'Z' {
        Ok(Character::B64((character as u8 - 'A' as u8) as u8))
    } else if 'a' <= character <= 'z' {
        Ok(Character::B64((character as u8 - 'a' as u8 + 26) as u8))
    } else if '0' <= character <= '9' {
        Ok(Character::B64((character as u8 - '0' as u8 + 52) as u8))
    } else if character == '+' {
        Ok(Character::B64(62))
    } else if character == '/' {
        Ok(Character::B64(63))
    } else if character == '=' {
        Ok(Character::Padding)
    } else {
        Err(Error::InvalidCharacter(character))
    }
}

/// The symbol that a byte of the input stands for: that of the character
/// with the byte's value as its code. No byte from 128 on is in the alphabet.
pub open spec fn classify_byte(byte: u8) -> Result<Character, Error> {
    classify(byte as char)
}

/// Converts a base64 character into the symbol it stands for.
pub fn get_byte(character: char) -> (outcome: Result<Character, Error>)
    ensures
        outcome == classify(character),
        outcome matches Ok(symbol) ==> symbol.is_valid(),
{
    let char_code: u32 = character as u32;
    if char_code > 127 {
        return Err(Error::InvalidCharacter(character));
    }
    get_byte_from_byte(&(char_code as u8))
}

/// Converts a base64 character, given as a byte, into the symbol it stands
/// for.
pub fn get_byte_from_byte(char_code: &u8) -> (outcome: Result<Character, Error>)
    ensures
        outcome == classify_byte(*char_code),
        outcome matches Ok(symbol) ==> symbol.is_valid(),
{
    let char_code: u8 = *char_code;
    match char_code {
        65..=90 => Character::try_from(char_code as i8 + UPPERCASE_OFFSET),
        97..=122 => Character::try_from(char_code as i8 + LOWERCASE_OFFSET),
        48..=57 => Character::try_from(char_code as i8 + NUMBER_OFFSET),
        PLUS => Ok(PLUS_ID.into()),
        SLASH => Ok(SLASH_ID.into()),
        PADDING => Ok(Character::Padding),
        _ => Err(Error::InvalidCharacter(char_code as char)),
    }
}

} // verus!
