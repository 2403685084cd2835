use simple_b64::decimal::decimal_string;
use simple_b64::decode;
use simple_b64::Error;

#[test]
fn an_invalid_character_is_named() {
    assert_eq!(Error::InvalidCharacter('!').to_string(), "Invalid character found: `!`");
}

#[test]
fn a_negative_number_is_named() {
    assert_eq!(
        Error::ExpectedPositiveInteger(-3).to_string(),
        "Expected a positive integer, got `-3` instead."
    );
    assert_eq!(
        Error::ExpectedPositiveInteger(-128).to_string(),
        "Expected a positive integer, got `-128` instead."
    );
}

#[test]
fn an_invalid_group_is_listed() {
    assert_eq!(
        Error::InvalidBytes(['Q', '=', 'Q', 'Q']).to_string(),
        "Following characters cannot be decoded [`Q`,`=`,`Q`,`Q`]"
    );
    assert_eq!(
        Error::InvalidBytes(['R', ' ', ' ', ' ']).to_string(),
        "Following characters cannot be decoded [`R`,` `,` `,` `]"
    );
}

#[test]
fn missing_padding_is_explained() {
    assert_eq!(
        Error::ExpectedPadded(String::from("TQ")).to_string(),
        "Expected padded base64, got unpadded: `TQ`\nPadded base64 needs to consist of only 4 char chunks and should be padded with `=`"
    );
}

#[test]
fn unwanted_padding_is_explained() {
    assert_eq!(
        Error::ExpectedUnpadded(String::from("TQ==")).to_string(),
        "Expected unpadded base64, got padded: `TQ==`\nUnpadded base64 should not contain the padding character (`=`) when they're not made of 4 char chunks"
    );
}

#[test]
fn a_failed_decoding_explains_itself() {
    let error = decode("QWxs!GhhaWw=").unwrap_err();
    assert_eq!(error.to_string(), "Invalid character found: `!`");
    let error = decode("QUJDR").unwrap_err();
    assert_eq!(error.to_string(), "Following characters cannot be decoded [`R`,` `,` `,` `]");
}

#[test]
fn small_integers_are_written_in_decimal() {
    assert_eq!(decimal_string(0), "0");
    assert_eq!(decimal_string(7), "7");
    assert_eq!(decimal_string(10), "10");
    assert_eq!(decimal_string(42), "42");
    assert_eq!(decimal_string(99), "99");
    assert_eq!(decimal_string(100), "100");
    assert_eq!(decimal_string(105), "105");
    assert_eq!(decimal_string(127), "127");
    assert_eq!(decimal_string(-1), "-1");
    assert_eq!(decimal_string(-10), "-10");
    assert_eq!(decimal_string(-100), "-100");
    assert_eq!(decimal_string(-128), "-128");
}

#[test]
fn decimal_notation_agrees_with_the_standard_library() {
    for value in i8::MIN..=i8::MAX {
        assert_eq!(decimal_string(value), format!("{}", value));
    }
}
