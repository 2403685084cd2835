use simple_b64::group::convert_to_ascii_bytes;
use simple_b64::group::convert_to_ascii_bytes_from_array;
use simple_b64::Character;
use simple_b64::Character::Padding;
use simple_b64::Character::B64;
use simple_b64::Error;

#[test]
fn four_values_give_three_bytes() {
    assert_eq!(
        convert_to_ascii_bytes(B64(19), B64(22), B64(5), B64(46)),
        Ok([Some('M'), Some('a'), Some('n')])
    );
    assert_eq!(
        convert_to_ascii_bytes(B64(0), B64(0), B64(0), B64(0)),
        Ok([Some('\0'), Some('\0'), Some('\0')])
    );
    assert_eq!(
        convert_to_ascii_bytes(B64(63), B64(63), B64(63), B64(63)),
        Ok([Some('\u{ff}'), Some('\u{ff}'), Some('\u{ff}')])
    );
}

#[test]
fn three_values_give_two_bytes() {
    assert_eq!(
        convert_to_ascii_bytes(B64(19), B64(22), B64(4), Padding),
        Ok([Some('M'), Some('a'), None])
    );
}

#[test]
fn two_values_give_one_byte() {
    assert_eq!(
        convert_to_ascii_bytes(B64(19), B64(16), Padding, Padding),
        Ok([Some('M'), None, None])
    );
}

#[test]
fn each_byte_takes_its_bits_from_two_values() {
    // 000001 000010 000011 000100 is 00000100 00100000 11000100.
    assert_eq!(
        convert_to_ascii_bytes(B64(1), B64(2), B64(3), B64(4)),
        Ok([Some('\u{04}'), Some('\u{20}'), Some('\u{c4}')])
    );
    // 100000 010000 001000 000100 is 10000001 00000010 00000100.
    assert_eq!(
        convert_to_ascii_bytes(B64(32), B64(16), B64(8), B64(4)),
        Ok([Some('\u{81}'), Some('\u{02}'), Some('\u{04}')])
    );
}

#[test]
fn the_bytes_are_the_24_bits_of_the_values() {
    for (a, b, c, d) in [(0u8, 1u8, 2u8, 3u8), (63, 0, 63, 0), (21, 42, 21, 42), (9, 60, 33, 17)] {
        let packed = u32::from(a) << 18 | u32::from(b) << 12 | u32::from(c) << 6 | u32::from(d);
        let expected = [
            Some(char::from((packed >> 16) as u8)),
            Some(char::from((packed >> 8) as u8)),
            Some(char::from(packed as u8)),
        ];
        assert_eq!(convert_to_ascii_bytes(B64(a), B64(b), B64(c), B64(d)), Ok(expected));
    }
}

#[test]
fn other_shapes_are_refused_and_shown() {
    assert_eq!(
        convert_to_ascii_bytes(B64(16), Padding, B64(16), B64(16)),
        Err(Error::InvalidBytes(['Q', '=', 'Q', 'Q']))
    );
    assert_eq!(
        convert_to_ascii_bytes(B64(0), B64(26), Padding, B64(52)),
        Err(Error::InvalidBytes(['A', 'a', '=', '0']))
    );
    assert_eq!(
        convert_to_ascii_bytes(Padding, B64(62), B64(63), Padding),
        Err(Error::InvalidBytes(['=', '+', '/', '=']))
    );
    assert_eq!(
        convert_to_ascii_bytes(B64(16), Padding, Padding, Padding),
        Err(Error::InvalidBytes(['Q', '=', '=', '=']))
    );
    assert_eq!(
        convert_to_ascii_bytes(Padding, Padding, Padding, Padding),
        Err(Error::InvalidBytes(['=', '=', '=', '=']))
    );
}

#[test]
fn every_shape_is_accepted_or_refused_by_its_padding() {
    let places = [B64(5), Padding];
    for s1 in places {
        for s2 in places {
            for s3 in places {
                for s4 in places {
                    let accepted = s1 != Padding && s2 != Padding && (s3 != Padding || s4 == Padding);
                    assert_eq!(convert_to_ascii_bytes(s1, s2, s3, s4).is_ok(), accepted);
                }
            }
        }
    }
}

#[test]
fn numbers_above_six_bits_lose_what_is_shifted_out() {
    assert_eq!(
        convert_to_ascii_bytes(B64(0xff), B64(0), B64(0), B64(0)),
        Ok([Some('\u{fc}'), Some('\0'), Some('\0')])
    );
    assert_eq!(
        convert_to_ascii_bytes(B64(0), B64(0xff), B64(0), B64(0)),
        Ok([Some('\u{0f}'), Some('\u{f0}'), Some('\0')])
    );
}

#[test]
fn a_slice_of_four_is_converted_like_four_symbols() {
    let symbols: Vec<Character> = vec![B64(19), B64(22), B64(5), B64(46)];
    assert_eq!(
        convert_to_ascii_bytes_from_array(&symbols),
        Ok([Some('M'), Some('a'), Some('n')])
    );
    let symbols: [Character; 4] = [B64(19), Padding, B64(5), B64(46)];
    assert_eq!(
        convert_to_ascii_bytes_from_array(&symbols),
        Err(Error::InvalidBytes(['T', '=', 'F', 'u']))
    );
}
