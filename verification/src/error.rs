//! Why a decoding was refused.

use crate::decimal::decimal;
use crate::decimal::decimal_string;
use vstd::prelude::*;
use vstd::string::StringExecFns;

verus! {

/// The reasons for which Base64 text is refused.
#[derive(Debug, PartialEq)]
pub enum Error {
    /// Padded text was asked for and the text has no padding.
    ExpectedPadded(String),
    /// Unpadded text was asked for and the text is padded.
    ExpectedUnpadded(String),
    /// A character that the alphabet does not hold.
    InvalidCharacter(char),
    /// A number that should be a six-bit value is negative.
    ExpectedPositiveInteger(i8),
    /// A group of up to four characters that no bytes can be read from. A
    /// group that was cut short is filled up with blanks.
    InvalidBytes([char; 4]),
}

impl Error {
    /// The sentence that tells a reader what went wrong.
    pub open spec fn message(self) -> Seq<char> {
        match self {
            Error::ExpectedPadded(culprit) => "Expected padded base64, got unpadded: `"@
                + culprit@
                + "`\nPadded base64 needs to consist of only 4 char chunks and should be padded with `=`"@,
            Error::ExpectedUnpadded(culprit) => "Expected unpadded base64, got padded: `"@
                + culprit@
                + "`\nUnpadded base64 should not contain the padding character (`=`) when they're not made of 4 char chunks"@,
            Error::InvalidCharacter(culprit) => "Invalid character found: `"@.push(culprit) + "`"@,
            Error::ExpectedPositiveInteger(culprit) => "Expected a positive integer, got `"@
                + decimal(culprit as int) + "` instead."@,
            Error::InvalidBytes(group) => "Following characters cannot be decoded [`"@.push(
                group[0],
            ) + "`,`"@.push(group[1]) + "`,`"@.push(group[2]) + "`,`"@.push(group[3]) + "`]"@,
        }
    }

    /// Renders the error as a sentence.
    pub fn to_string(&self) -> (text: String)
        ensures
            text@ == self.message(),
    {
        let mut text = String::new();
        match self {
            Error::ExpectedPadded(culprit) => {
                text.append("Expected padded base64, got unpadded: `");
                text.append(culprit.as_str());
                text.append(
                    "`\nPadded base64 needs to consist of only 4 char chunks and should be padded with `=`",
                );
            },
            Error::ExpectedUnpadded(culprit) => {
                text.append("Expected unpadded base64, got padded: `");
                text.append(culprit.as_str());
                text.append(
                    "`\nUnpadded base64 should not contain the padding character (`=`) when they're not made of 4 char chunks",
                );
            },
            Error::InvalidCharacter(culprit) => {
                text.append("Invalid character found: `");
                text.push(*culprit);
                text.append("`");
            },
            Error::ExpectedPositiveInteger(culprit) => {
                let number = decimal_string(*culprit);
                text.append("Expected a positive integer, got `");
                text.append(number.as_str());
                text.append("` instead.");
            },
            Error::InvalidBytes(group) => {
                text.append("Following characters cannot be decoded [`");
                text.push(group[0]);
                text.append("`,`");
                text.push(group[1]);
                text.append("`,`");
                text.push(group[2]);
                text.append("`,`");
                text.push(group[3]);
                text.append("`]");
            },
        }
        text
    }
}

} // verus!
