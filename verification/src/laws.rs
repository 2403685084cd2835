//! What holds of the decoder on every input.

use crate::alphabet::classify;
use crate::alphabet::classify_byte;
use crate::character::symbol_of;
use crate::character::Character;
use crate::decoder::classify_all;
use crate::decoder::decode_group;
use crate::decoder::decoded;
use crate::decoder::group_slots;
use crate::decoder::last_group_start;
use crate::decoder::present;
use crate::decoder::symbol_at;
use crate::decoder::text_of;
use crate::error::Error;
use crate::group::first_byte;
use crate::group::group_bytes;
use crate::group::second_byte;
use crate::group::third_byte;
use vstd::prelude::*;

verus! {

/// The alphabet holds each value from 0 to 63 once: the character that
/// stands for a value is classified as that value.
pub proof fn lemma_alphabet_holds_every_value(value: u8)
    requires
        value < 64,
    ensures
        classify(symbol_of(value)) == Ok::<Character, Error>(Character::B64(value)),
{
}

/// Nothing but the alphabet is accepted: a character classified as a value
/// is the character of that value, and the value fits in six bits; a
/// character classified as padding is `=`; every other character is refused
/// with an error that carries it.
pub proof fn lemma_alphabet_holds_nothing_else(character: char)
    ensures
        match classify(character) {
            Ok(Character::B64(value)) => value < 64 && symbol_of(value) == character,
            Ok(Character::Padding) => character == '=',
            Err(error) => {
                &&& error == Error::InvalidCharacter(character)
                &&& character != '='
                &&& forall|value: u8| value < 64 ==> #[trigger] symbol_of(value) != character
            },
        },
{
}

/// A byte and the character with the same code are classified alike, and no
/// byte from 128 on is accepted.
pub proof fn lemma_bytes_are_characters(byte: u8)
    ensures
        classify_byte(byte) == classify(byte as char),
        byte >= 128 ==> classify_byte(byte) == Err::<Character, Error>(
            Error::InvalidCharacter(byte as char),
        ),
{
}

/// The bytes of a group of six-bit values are the 24 bits of the four values
/// written one after the other, cut into three.
pub proof fn lemma_group_packs_24_bits(s1: u8, s2: u8, s3: u8, s4: u8)
    requires
        s1 < 64,
        s2 < 64,
        s3 < 64,
        s4 < 64,
    ensures
        first_byte(s1, s2) == s1 * 4 + s2 / 16,
        second_byte(s2, s3) == (s2 % 16) * 16 + s3 / 4,
        third_byte(s3, s4) == (s3 % 4) * 64 + s4,
        first_byte(s1, s2) * 65536 + second_byte(s2, s3) * 256 + third_byte(s3, s4) == s1 * 262144
            + s2 * 4096 + s3 * 64 + s4,
{
    assert(first_byte(s1, s2) == s1 * 4 + s2 / 16) by (bit_vector)
        requires
            s1 < 64,
            s2 < 64,
    ;
    assert(second_byte(s2, s3) == (s2 % 16) * 16 + s3 / 4) by (bit_vector)
        requires
            s2 < 64,
            s3 < 64,
    ;
    assert(third_byte(s3, s4) == (s3 % 4) * 64 + s4) by (bit_vector)
        requires
            s3 < 64,
            s4 < 64,
    ;
}

/// A group is accepted when it begins with two values and nothing but
/// padding follows the first padding mark, and only then.
pub proof fn lemma_group_shapes(s1: Character, s2: Character, s3: Character, s4: Character)
    ensures
        group_bytes(s1, s2, s3, s4) is Ok <==> {
            &&& s1 is B64
            &&& s2 is B64
            &&& s3 is Padding ==> s4 is Padding
        },
        group_bytes(s1, s2, s3, s4) matches Ok(slots) ==> {
            &&& slots@[0] is Some
            &&& slots@[1] is Some <==> s3 is B64
            &&& slots@[2] is Some <==> s4 is B64
        },
        group_bytes(s1, s2, s3, s4) matches Err(error) ==> error == Error::InvalidBytes(
            [s1.shown(), s2.shown(), s3.shown(), s4.shown()],
        ),
{
}

/// One symbol alone is never a group: it holds too few bits for a byte.
pub proof fn lemma_lone_symbol_is_refused(symbols: Seq<Character>)
    requires
        symbols.len() == 1,
    ensures
        group_slots(symbols) == Err::<[Option<char>; 3], Error>(
            Error::InvalidBytes([symbols[0].shown(), ' ', ' ', ' ']),
        ),
{
}

/// A run of bytes is classified byte by byte. It is accepted when every
/// byte is, and then the symbols are those of the bytes, in their order.
/// Else the error is that of the first byte that is refused.
pub proof fn lemma_classify_all_each(bytes: Seq<u8>)
    ensures
        match classify_all(bytes) {
            Ok(symbols) => {
                &&& symbols.len() == bytes.len()
                &&& forall|i: int|
                    0 <= i < bytes.len() ==> classify_byte(#[trigger] bytes[i]) == Ok::<
                        Character,
                        Error,
                    >(symbols[i])
            },
            Err(error) => exists|i: int|
                {
                    &&& 0 <= i < bytes.len()
                    &&& classify_byte(#[trigger] bytes[i]) == Err::<Character, Error>(error)
                    &&& forall|j: int| 0 <= j < i ==> classify_byte(#[trigger] bytes[j]) is Ok
                },
        },
    decreases bytes.len(),
{
    if bytes.len() > 0 {
        let front = bytes.drop_last();
        lemma_classify_all_each(front);
        match classify_all(front) {
            Ok(symbols) => {
                if classify_byte(bytes.last()) is Err {
                    let i = bytes.len() - 1;
                    assert(classify_byte(bytes[i])->Err_0 == classify_all(bytes)->Err_0);
                    assert forall|j: int| 0 <= j < i implies classify_byte(
                        #[trigger] bytes[j],
                    ) is Ok by {
                        assert(bytes[j] == front[j]);
                    }
                } else {
                    let all = classify_all(bytes)->Ok_0;
                    assert forall|i: int| 0 <= i < bytes.len() implies classify_byte(
                        #[trigger] bytes[i],
                    ) == Ok::<Character, Error>(all[i]) by {
                        if i < front.len() {
                            assert(bytes[i] == front[i]);
                        }
                    }
                }
            },
            Err(error) => {
                let i = choose|i: int|
                    {
                        &&& 0 <= i < front.len()
                        &&& classify_byte(#[trigger] front[i]) == Err::<Character, Error>(error)
                        &&& forall|j: int| 0 <= j < i ==> classify_byte(#[trigger] front[j]) is Ok
                    };
                assert(bytes[i] == front[i]);
                assert forall|j: int| 0 <= j < i implies classify_byte(#[trigger] bytes[j]) is Ok by {
                    assert(bytes[j] == front[j]);
                }
            },
        }
    }
}

/// The empty input decodes to the empty text.
pub proof fn lemma_empty_input()
    ensures
        decoded(Seq::<u8>::empty()) == Ok::<Seq<char>, Error>(Seq::empty()),
{
}

/// Decoding is a function of the input: two results for the same bytes are
/// both texts with the same characters, or both the same error.
pub proof fn lemma_decode_is_deterministic(
    bytes: Seq<u8>,
    first: Result<String, Error>,
    second: Result<String, Error>,
)
    requires
        text_of(first) == decoded(bytes),
        text_of(second) == decoded(bytes),
    ensures
        first is Ok <==> second is Ok,
        first is Ok ==> first->Ok_0@ == second->Ok_0@,
        first is Err ==> first->Err_0 == second->Err_0,
{
}

/// How many groups an input of `len` bytes is cut into.
pub open spec fn group_count(len: nat) -> nat {
    (len + 3) / 4
}

/// The `k`-th group of an input, counted from 0: four bytes, or what is left
/// of the input.
pub open spec fn group_of(bytes: Seq<u8>, k: int) -> Seq<u8> {
    if 4 * k + 4 <= bytes.len() {
        bytes.subrange(4 * k, 4 * k + 4)
    } else {
        bytes.subrange(4 * k, bytes.len() as int)
    }
}

/// An input is accepted when each of its groups is. Else the error is that
/// of the leftmost group that is refused.
pub proof fn lemma_decoded_group_by_group(bytes: Seq<u8>)
    ensures
        match decoded(bytes) {
            Ok(_) => forall|k: int|
                0 <= k < group_count(bytes.len()) ==> decode_group(#[trigger] group_of(bytes, k))
                    is Ok,
            Err(error) => exists|k: int|
                {
                    &&& 0 <= k < group_count(bytes.len())
                    &&& decode_group(#[trigger] group_of(bytes, k)) == Err::<Seq<char>, Error>(
                        error,
                    )
                    &&& forall|j: int|
                        0 <= j < k ==> decode_group(#[trigger] group_of(bytes, j)) is Ok
                },
        },
    decreases bytes.len(),
{
    if bytes.len() > 0 {
        let start = last_group_start(bytes.len()) as int;
        let front = bytes.take(start);
        let last = group_count(bytes.len()) - 1;
        lemma_decoded_group_by_group(front);
        assert(group_count(front.len()) == last);
        assert(group_of(bytes, last) =~= bytes.skip(start));
        assert forall|j: int| 0 <= j < last implies group_of(front, j) =~= #[trigger] group_of(
            bytes,
            j,
        ) by {}
        match decoded(front) {
            Ok(_) => {
                assert forall|j: int| 0 <= j < last implies decode_group(
                    #[trigger] group_of(bytes, j),
                ) is Ok by {
                    assert(group_of(front, j) =~= group_of(bytes, j));
                }
            },
            Err(error) => {
                let k = choose|k: int|
                    {
                        &&& 0 <= k < group_count(front.len())
                        &&& decode_group(#[trigger] group_of(front, k)) == Err::<
                            Seq<char>,
                            Error,
                        >(error)
                        &&& forall|j: int|
                            0 <= j < k ==> decode_group(#[trigger] group_of(front, j)) is Ok
                    };
                assert(group_of(front, k) =~= group_of(bytes, k));
                assert forall|j: int| 0 <= j < k implies decode_group(
                    #[trigger] group_of(bytes, j),
                ) is Ok by {
                    assert(group_of(front, j) =~= group_of(bytes, j));
                }
            },
        }
    }
}

/// An input that is accepted holds nothing but characters of the alphabet
/// and padding marks.
pub proof fn lemma_accepted_input_is_in_alphabet(bytes: Seq<u8>)
    requires
        decoded(bytes) is Ok,
    ensures
        forall|i: int| 0 <= i < bytes.len() ==> classify_byte(#[trigger] bytes[i]) is Ok,
{
    lemma_decoded_group_by_group(bytes);
    assert forall|i: int| 0 <= i < bytes.len() implies classify_byte(#[trigger] bytes[i]) is Ok by {
        let k = i / 4;
        let group = group_of(bytes, k);
        assert(decode_group(group) is Ok);
        lemma_classify_all_each(group);
        assert(group[i - 4 * k] == bytes[i]);
    }
}

/// Decoding fails in two ways only: on a byte outside the alphabet, with an
/// error that carries the byte as a character, or on a group that no bytes
/// can be read from.
pub proof fn lemma_failures_of_decoding(bytes: Seq<u8>)
    ensures
        decoded(bytes) matches Err(error) ==> {
            ||| error is InvalidBytes
            ||| exists|i: int|
                {
                    &&& 0 <= i < bytes.len()
                    &&& classify_byte(#[trigger] bytes[i]) is Err
                    &&& error == Error::InvalidCharacter(bytes[i] as char)
                }
        },
{
    lemma_decoded_group_by_group(bytes);
    if decoded(bytes) is Err {
        let error = decoded(bytes)->Err_0;
        let k = choose|k: int|
            {
                &&& 0 <= k < group_count(bytes.len())
                &&& decode_group(#[trigger] group_of(bytes, k)) == Err::<Seq<char>, Error>(error)
            };
        let group = group_of(bytes, k);
        lemma_classify_all_each(group);
        match classify_all(group) {
            Ok(symbols) => {
                assert(error is InvalidBytes);
            },
            Err(_) => {
                let i = choose|i: int|
                    {
                        &&& 0 <= i < group.len()
                        &&& classify_byte(#[trigger] group[i]) == Err::<Character, Error>(error)
                    };
                assert(group[i] == bytes[4 * k + i]);
                assert(classify_byte(bytes[4 * k + i]) is Err);
            },
        }
    }
}

/// No more comes out than three characters for each group, and each
/// character that comes out is a byte: its code is below 256.
pub proof fn lemma_output_is_bounded(bytes: Seq<u8>)
    ensures
        decoded(bytes) matches Ok(text) ==> {
            &&& text.len() <= 3 * group_count(bytes.len())
            &&& forall|i: int| 0 <= i < text.len() ==> (#[trigger] text[i]) as u32 <= 255
        },
    decreases bytes.len(),
{
    if bytes.len() > 0 && decoded(bytes) is Ok {
        let start = last_group_start(bytes.len()) as int;
        lemma_output_is_bounded(bytes.take(start));
        let symbols = classify_all(bytes.skip(start))->Ok_0;
        let slots = group_slots(symbols)->Ok_0;
        lemma_present_is_bounded(slots@);
    }
}

/// The characters that are there are no more than the slots, and each of
/// them stands in a slot.
pub proof fn lemma_present_is_bounded(slots: Seq<Option<char>>)
    ensures
        present(slots).len() <= slots.len(),
        forall|i: int|
            0 <= i < present(slots).len() ==> exists|j: int|
                0 <= j < slots.len() && #[trigger] slots[j] == Some(#[trigger] present(slots)[i]),
    decreases slots.len(),
{
    if slots.len() > 0 {
        let front = slots.drop_last();
        lemma_present_is_bounded(front);
        assert forall|i: int| 0 <= i < present(slots).len() implies exists|j: int|
            0 <= j < slots.len() && #[trigger] slots[j] == Some(#[trigger] present(slots)[i]) by {
            if i < present(front).len() {
                let j = choose|j: int|
                    0 <= j < front.len() && #[trigger] front[j] == Some(present(front)[i]);
                assert(slots[j] == front[j]);
            } else {
                assert(slots[slots.len() - 1] == Some(present(slots)[i]));
            }
        }
    }
}

/// The input without the padding marks that it ends in.
pub open spec fn without_padding(bytes: Seq<u8>) -> Seq<u8>
    decreases bytes.len(),
{
    if bytes.len() > 0 && bytes.last() == 61 {
        without_padding(bytes.drop_last())
    } else {
        bytes
    }
}

/// A padding mark at the end of an accepted input can be left out: what
/// remains decodes to the same text.
pub proof fn lemma_final_padding_mark_is_optional(bytes: Seq<u8>)
    requires
        bytes.len() > 0,
        bytes.last() == 61,
        decoded(bytes) is Ok,
    ensures
        decoded(bytes.drop_last()) == decoded(bytes),
{
    let start = last_group_start(bytes.len()) as int;
    let group = bytes.skip(start);
    let shorter = bytes.drop_last();
    lemma_classify_all_each(group);
    let symbols = classify_all(group)->Ok_0;
    assert(classify_byte(group[group.len() - 1]) == Ok::<Character, Error>(Character::Padding));
    assert(symbols.len() >= 3);
    assert(last_group_start(shorter.len()) == start);
    assert(shorter.take(start) =~= bytes.take(start));
    assert(shorter.skip(start) =~= group.drop_last());
    let kept = classify_all(group.drop_last())->Ok_0;
    assert(symbols == kept.push(Character::Padding));
    assert(symbols.drop_last() =~= kept);
    assert(symbol_at(kept, 2) == symbol_at(symbols, 2));
    assert(symbol_at(kept, 3) == symbol_at(symbols, 3));
}

/// Padding is optional: an accepted input and the same input without the
/// padding marks at its end decode to the same text.
pub proof fn lemma_padding_is_optional(bytes: Seq<u8>)
    requires
        decoded(bytes) is Ok,
    ensures
        decoded(without_padding(bytes)) == decoded(bytes),
    decreases bytes.len(),
{
    if bytes.len() > 0 && bytes.last() == 61 {
        lemma_final_padding_mark_is_optional(bytes);
        lemma_padding_is_optional(bytes.drop_last());
    }
}

/// Whether a byte stands for a six-bit value.
pub open spec fn is_value(byte: u8) -> bool {
    classify_byte(byte) matches Ok(Character::B64(_))
}

/// Whether a group holds exactly one value, and padding marks besides.
pub open spec fn holds_one_value(group: Seq<u8>) -> bool {
    exists|i: int|
        {
            &&& 0 <= i < group.len()
            &&& is_value(#[trigger] group[i])
            &&& forall|j: int|
                0 <= j < group.len() && j != i ==> classify_byte(#[trigger] group[j]) == Ok::<
                    Character,
                    Error,
                >(Character::Padding)
        }
}

/// An input made of characters of the alphabet and padding marks whose last
/// group holds exactly one value is refused as a group that cannot be
/// decoded.
pub proof fn lemma_single_trailing_symbol(bytes: Seq<u8>)
    requires
        bytes.len() > 0,
        forall|i: int| 0 <= i < bytes.len() ==> classify_byte(#[trigger] bytes[i]) is Ok,
        holds_one_value(bytes.skip(last_group_start(bytes.len()) as int)),
    ensures
        decoded(bytes) matches Err(error) && error is InvalidBytes,
{
    let start = last_group_start(bytes.len()) as int;
    let group = bytes.skip(start);
    lemma_failures_of_decoding(bytes);
    lemma_classify_all_each(group);
    assert forall|i: int| 0 <= i < group.len() implies classify_byte(#[trigger] group[i]) is Ok by {
        assert(group[i] == bytes[start + i]);
    }
    let symbols = classify_all(group)->Ok_0;
    if group.len() >= 2 {
        assert(classify_byte(group[0]) == Ok::<Character, Error>(symbols[0]));
        assert(classify_byte(group[1]) == Ok::<Character, Error>(symbols[1]));
        assert(group_slots(symbols) is Err);
    }
    assert(decode_group(group) is Err);
}

/// An input made of characters of the alphabet and padding marks whose
/// length leaves 1 when divided by 4 ends in a group of one symbol and is
/// refused. Where all that stands before the last byte is accepted, the
/// error shows the last byte as a character, with three blanks behind it.
pub proof fn lemma_one_byte_left_over(bytes: Seq<u8>)
    requires
        bytes.len() % 4 == 1,
        forall|i: int| 0 <= i < bytes.len() ==> classify_byte(#[trigger] bytes[i]) is Ok,
    ensures
        decoded(bytes) matches Err(error) && error is InvalidBytes,
        decoded(bytes.drop_last()) is Ok ==> decoded(bytes) == Err::<Seq<char>, Error>(
            Error::InvalidBytes([bytes.last() as char, ' ', ' ', ' ']),
        ),
{
    let start = last_group_start(bytes.len()) as int;
    let group = bytes.skip(start);
    assert(start == bytes.len() - 1);
    assert(bytes.take(start) =~= bytes.drop_last());
    lemma_failures_of_decoding(bytes);
    lemma_classify_all_each(group);
    assert(group[0] == bytes.last());
    assert(classify_byte(group[0]) is Ok);
    let symbols = classify_all(group)->Ok_0;
    assert(symbols.len() == 1);
    assert(classify_byte(group[0]) == Ok::<Character, Error>(symbols[0]));
    lemma_alphabet_holds_nothing_else(bytes.last() as char);
    assert(symbols[0].shown() == bytes.last() as char);
    assert(decode_group(group) == Err::<Seq<char>, Error>(
        Error::InvalidBytes([bytes.last() as char, ' ', ' ', ' ']),
    ));
}

} // verus!
