//! The bytes that the decoder reads, told of the characters of a text.
//!
//! The decoder works on the UTF-8 bytes of its input. For a text of ASCII
//! characters these are the characters' codes, one byte each. Any other
//! character brings in a byte from 128 on, which the alphabet does not hold.

use crate::alphabet::classify;
use crate::alphabet::classify_byte;
use crate::decoder::decoded;
use crate::laws::lemma_accepted_input_is_in_alphabet;
use crate::laws::lemma_final_padding_mark_is_optional;
use vstd::prelude::*;
use vstd::utf8::encode_scalar;
use vstd::utf8::encode_utf8;
use vstd::utf8::is_ascii_chars;
use vstd::utf8::is_ascii_chars_encode_utf8;

verus! {

/// The codes of the characters of a text, each as a byte.
pub open spec fn codes(text: Seq<char>) -> Seq<u8> {
    Seq::new(text.len(), |i: int| text[i] as u8)
}

/// The bytes of an ASCII text are the codes of its characters.
pub proof fn lemma_ascii_text_bytes(text: Seq<char>)
    requires
        is_ascii_chars(text),
    ensures
        encode_utf8(text) == codes(text),
{
    is_ascii_chars_encode_utf8(text);
    assert(encode_utf8(text) =~= codes(text));
}

/// No character has a code below that of `\0`.
proof fn lemma_character_range(character: char)
    ensures
        '\0' <= character,
{
}

/// The encoding of a character that is not ASCII begins with a byte from
/// 128 on.
pub proof fn lemma_wide_character_bytes(character: char)
    requires
        character > '\u{7f}',
    ensures
        encode_scalar(character as u32).len() >= 1,
        encode_scalar(character as u32)[0] >= 128,
{
    let scalar = character as u32;
    let two = ((scalar >> 6) & 0x1F) as u8;
    let three = ((scalar >> 12) & 0x0F) as u8;
    let four = ((scalar >> 18) & 0x7) as u8;
    assert(0xC0u8 | two >= 128) by (bit_vector);
    assert(0xE0u8 | three >= 128) by (bit_vector);
    assert(0xF0u8 | four >= 128) by (bit_vector);
}

/// A text that is not all ASCII has a byte from 128 on among its bytes.
pub proof fn lemma_wide_text_bytes(text: Seq<char>)
    requires
        !is_ascii_chars(text),
    ensures
        exists|i: int| 0 <= i < encode_utf8(text).len() && #[trigger] encode_utf8(text)[i] >= 128,
    decreases text.len(),
{
    if text.len() > 0 {
        let head = encode_scalar(text[0] as u32);
        let rest = text.drop_first();
        if text[0] > '\u{7f}' {
            lemma_wide_character_bytes(text[0]);
            assert(encode_utf8(text)[0] == head[0]);
        } else {
            assert(!is_ascii_chars(rest)) by {
                if is_ascii_chars(rest) {
                    assert forall|i: int| 0 <= i < text.len() implies '\0' <= #[trigger] text[i]
                        <= '\u{7f}' by {
                        if i > 0 {
                            assert(text[i] == rest[i - 1]);
                        } else {
                            lemma_character_range(text[0]);
                        }
                    }
                }
            }
            lemma_wide_text_bytes(rest);
            let j = choose|j: int|
                0 <= j < encode_utf8(rest).len() && #[trigger] encode_utf8(rest)[j] >= 128;
            assert(encode_utf8(text)[head.len() + j] == encode_utf8(rest)[j]);
        }
    }
}

/// Only ASCII text is accepted, and every character of an accepted text is
/// one of the alphabet or a padding mark.
pub proof fn lemma_accepted_text_is_ascii(text: Seq<char>)
    requires
        decoded(encode_utf8(text)) is Ok,
    ensures
        is_ascii_chars(text),
        encode_utf8(text) == codes(text),
        forall|i: int| 0 <= i < text.len() ==> classify(#[trigger] text[i]) is Ok,
{
    let bytes = encode_utf8(text);
    lemma_accepted_input_is_in_alphabet(bytes);
    if !is_ascii_chars(text) {
        lemma_wide_text_bytes(text);
        let i = choose|i: int| 0 <= i < bytes.len() && #[trigger] bytes[i] >= 128;
        assert(classify_byte(bytes[i]) is Ok);
    }
    lemma_ascii_text_bytes(text);
    assert forall|i: int| 0 <= i < text.len() implies classify(#[trigger] text[i]) is Ok by {
        assert(classify_byte(bytes[i]) is Ok);
        assert(bytes[i] == text[i] as u8);
        assert((text[i] as u8) as char == text[i]);
    }
}

/// A `=` at the end of an accepted text can be left out: the text without
/// it decodes to the same result.
pub proof fn lemma_final_padding_character_is_optional(text: Seq<char>)
    requires
        text.len() > 0,
        text.last() == '=',
        decoded(encode_utf8(text)) is Ok,
    ensures
        decoded(encode_utf8(text.drop_last())) == decoded(encode_utf8(text)),
{
    lemma_accepted_text_is_ascii(text);
    let shorter = text.drop_last();
    assert(is_ascii_chars(shorter)) by {
        assert forall|i: int| 0 <= i < shorter.len() implies '\0' <= #[trigger] shorter[i]
            <= '\u{7f}' by {
            assert(shorter[i] == text[i]);
        }
    }
    lemma_ascii_text_bytes(shorter);
    assert(codes(shorter) =~= codes(text).drop_last());
    lemma_final_padding_mark_is_optional(encode_utf8(text));
}

} // verus!
