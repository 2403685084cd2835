use simple_b64::get_byte;
use simple_b64::alphabet::get_byte_from_byte;
use simple_b64::Character;
use simple_b64::Error;

const ALPHABET: &str = "ABCDEFGHIJKLMNOPQRSTUVWXYZabcdefghijklmnopqrstuvwxyz0123456789+/";

#[test]
fn every_symbol_has_its_value() {
    assert_eq!(ALPHABET.chars().count(), 64);
    for (value, symbol) in ALPHABET.chars().enumerate() {
        assert_eq!(get_byte(symbol), Ok(Character::B64(value as u8)));
    }
}

#[test]
fn the_ends_of_each_range_have_their_values() {
    assert_eq!(get_byte('A'), Ok(Character::B64(0)));
    assert_eq!(get_byte('Z'), Ok(Character::B64(25)));
    assert_eq!(get_byte('a'), Ok(Character::B64(26)));
    assert_eq!(get_byte('z'), Ok(Character::B64(51)));
    assert_eq!(get_byte('0'), Ok(Character::B64(52)));
    assert_eq!(get_byte('9'), Ok(Character::B64(61)));
    assert_eq!(get_byte('+'), Ok(Character::B64(62)));
    assert_eq!(get_byte('/'), Ok(Character::B64(63)));
}

#[test]
fn the_equals_sign_is_padding() {
    assert_eq!(get_byte('='), Ok(Character::Padding));
    assert_eq!(get_byte_from_byte(&b'='), Ok(Character::Padding));
}

#[test]
fn every_other_character_is_refused() {
    for code in 0u32..=0x2ff {
        let character = char::from_u32(code).unwrap();
        if ALPHABET.contains(character) || character == '=' {
            assert!(get_byte(character).is_ok());
        } else {
            assert_eq!(get_byte(character), Err(Error::InvalidCharacter(character)));
        }
    }
    assert_eq!(get_byte('@'), Err(Error::InvalidCharacter('@')));
    assert_eq!(get_byte('['), Err(Error::InvalidCharacter('[')));
    assert_eq!(get_byte('`'), Err(Error::InvalidCharacter('`')));
    assert_eq!(get_byte('{'), Err(Error::InvalidCharacter('{')));
    assert_eq!(get_byte(':'), Err(Error::InvalidCharacter(':')));
    assert_eq!(get_byte('-'), Err(Error::InvalidCharacter('-')));
    assert_eq!(get_byte('\u{e9}'), Err(Error::InvalidCharacter('\u{e9}')));
    assert_eq!(get_byte('\u{1f980}'), Err(Error::InvalidCharacter('\u{1f980}')));
}

#[test]
fn bytes_are_classified_as_the_characters_with_their_codes() {
    for byte in 0u8..=255 {
        assert_eq!(get_byte_from_byte(&byte), get_byte(byte as char));
    }
    assert_eq!(get_byte_from_byte(&0x80), Err(Error::InvalidCharacter('\u{80}')));
    assert_eq!(get_byte_from_byte(&0xff), Err(Error::InvalidCharacter('\u{ff}')));
}

#[test]
fn classified_values_fit_in_six_bits() {
    for byte in 0u8..=255 {
        if let Ok(Character::B64(value)) = get_byte_from_byte(&byte) {
            assert!(value < 64);
        }
    }
}

#[test]
fn a_symbol_is_shown_as_its_character() {
    for (value, symbol) in ALPHABET.chars().enumerate() {
        assert_eq!(char::from(Character::B64(value as u8)), symbol);
    }
    assert_eq!(char::from(Character::Padding), '=');
    let shown: char = Character::B64(26).into();
    assert_eq!(shown, 'a');
}

#[test]
fn a_number_above_the_alphabet_is_shown_as_itself() {
    assert_eq!(char::from(Character::B64(64)), '@');
    assert_eq!(char::from(Character::B64(255)), '\u{ff}');
}

#[test]
fn a_value_is_made_from_a_number() {
    assert_eq!(Character::from(7u8), Character::B64(7));
    assert_eq!(Character::try_from(0i8), Ok(Character::B64(0)));
    assert_eq!(Character::try_from(63i8), Ok(Character::B64(63)));
    assert_eq!(Character::try_from(127i8), Ok(Character::B64(127)));
}

#[test]
fn a_negative_number_is_no_value() {
    assert_eq!(Character::try_from(-1i8), Err(Error::ExpectedPositiveInteger(-1)));
    assert_eq!(Character::try_from(-128i8), Err(Error::ExpectedPositiveInteger(-128)));
}
