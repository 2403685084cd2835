//! The symbols that Base64 text is made of.

use crate::error::Error;
use vstd::prelude::*;
use vstd::std_specs::convert::FromSpecImpl;
use vstd::std_specs::convert::TryFromSpecImpl;

verus! {

/// What one character of the input stands for: a six-bit value, or the
/// padding mark that fills up a final group.
#[derive(Debug, Clone, Copy, PartialEq, Eq, Structural)]
pub enum Character {
    B64(u8),
    Padding,
}

/// The character that the alphabet assigns to a six-bit value: `A`-`Z` for 0
/// to 25, `a`-`z` for 26 to 51, `0`-`9` for 52 to 61, then `+` and `/`.
/// A number above 63 is no value of the alphabet and stands for itself.
pub open spec fn symbol_of(value: u8) -> char {
    if value < 26 {
        (value + 65) as char
    } else if value < 52 {
        (value + 71) as char
    } else if value < 62 {
        (value - 4) as char
    } else if value == 62 {
        '+'
    } else if value == 63 {
        '/'
    } else {
        value as char
    }
}

impl Character {
    /// A value symbol is valid when it fits in six bits. Padding always is.
    pub open spec fn is_valid(self) -> bool {
        match self {
            Character::B64(value) => value < 64,
            Character::Padding => true,
        }
    }

    /// The character that shows this symbol in text.
    pub open spec fn shown(self) -> char {
        match self {
            Character::B64(value) => symbol_of(value),
            Character::Padding => '=',
        }
    }
}

impl From<u8> for Character {
    /// Takes a number as a value symbol.
    fn from(value: u8) -> (symbol: Self)
        ensures
            symbol == Character::B64(value),
    {
        Character::B64(value)
    }
}

impl FromSpecImpl<u8> for Character {
    open spec fn obeys_from_spec() -> bool {
        true
    }

    open spec fn from_spec(value: u8) -> Self {
        Character::B64(value)
    }
}

impl TryFrom<i8> for Character {
    type Error = Error;

    /// Takes a signed number as a value symbol, unless it is negative.
    fn try_from(value: i8) -> (outcome: Result<Self, Error>)
        ensures
            value >= 0 ==> outcome == Ok::<Character, Error>(Character::B64(value as u8)),
            value < 0 ==> outcome == Err::<Character, Error>(
                Error::ExpectedPositiveInteger(value),
            ),
    {
        if value < 0 {
            return Err(Error::ExpectedPositiveInteger(value));
        }
        Ok(Character::B64(value as u8))
    }
}

impl TryFromSpecImpl<i8> for Character {
    open spec fn obeys_try_from_spec() -> bool {
        true
    }

    open spec fn try_from_spec(value: i8) -> Result<Self, Error> {
        if value < 0 {
            Err(Error::ExpectedPositiveInteger(value))
        } else {
            Ok(Character::B64(value as u8))
        }
    }
}

impl From<Character> for char {
    /// The character that shows a symbol in text.
    fn from(symbol: Character) -> (shown: char)
        ensures
            shown == symbol.shown(),
    {
        match symbol {
            Character::Padding => '=',
            Character::B64(value) => {
                if value < 26 {
                    (value + 65) as char
                } else if value < 52 {
                    (value + 71) as char
                } else if value < 62 {
                    (value - 4) as char
                } else if value == 62 {
                    '+'
                } else if value == 63 {
                    '/'
                } else {
                    value as char
                }
            },
        }
    }
}

impl FromSpecImpl<Character> for char {
    open spec fn obeys_from_spec() -> bool {
        true
    }

    open spec fn from_spec(symbol: Character) -> char {
        symbol.shown()
    }
}

} // verus!
