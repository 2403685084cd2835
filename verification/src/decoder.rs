//! Decoding of a whole text, one group of four characters after another.

use crate::alphabet::classify_byte;
use crate::alphabet::get_byte_from_byte;
use crate::character::Character;
use crate::error::Error;
use crate::group::convert_to_ascii_bytes;
use crate::group::convert_to_ascii_bytes_from_array;
use crate::group::group_bytes;
use vstd::prelude::*;
use vstd::string::StringSliceAdditionalSpecFns;

verus! {

/// The symbols of a run of bytes, or the error of the first byte in it that
/// is not in the alphabet.
pub open spec fn classify_all(bytes: Seq<u8>) -> Result<Seq<Character>, Error>
    decreases bytes.len(),
{
    if bytes.len() == 0 {
        Ok(Seq::empty())
    } else {
        match classify_all(bytes.drop_last()) {
            Err(error) => Err(error),
            Ok(symbols) => match classify_byte(bytes.last()) {
                Err(error) => Err(error),
                Ok(symbol) => Ok(symbols.push(symbol)),
            },
        }
    }
}

/// The symbol at a place of a group. A group that was cut short counts as
/// filled up with padding.
pub open spec fn symbol_at(symbols: Seq<Character>, place: int) -> Character {
    if 0 <= place < symbols.len() {
        symbols[place]
    } else {
        Character::Padding
    }
}

/// The three byte slots of a group of one to four symbols.
///
/// A single symbol holds too few bits for a byte: it is refused, and the
/// error shows it with three blanks behind it. Two to four symbols are read
/// as a full group whose missing places are padding.
pub open spec fn group_slots(symbols: Seq<Character>) -> Result<[Option<char>; 3], Error>
    recommends
        1 <= symbols.len() <= 4,
{
    if symbols.len() == 1 {
        Err(Error::InvalidBytes([symbols[0].shown(), ' ', ' ', ' ']))
    } else {
        group_bytes(
            symbol_at(symbols, 0),
            symbol_at(symbols, 1),
            symbol_at(symbols, 2),
            symbol_at(symbols, 3),
        )
    }
}

/// The characters that are there, in their order.
pub open spec fn present(slots: Seq<Option<char>>) -> Seq<char>
    decreases slots.len(),
{
    if slots.len() == 0 {
        Seq::empty()
    } else {
        match slots.last() {
            Some(character) => present(slots.drop_last()).push(character),
            None => present(slots.drop_last()),
        }
    }
}

/// What one group of one to four input bytes decodes to. A byte that is not
/// in the alphabet is reported before the shape of the group is looked at.
pub open spec fn decode_group(group: Seq<u8>) -> Result<Seq<char>, Error>
    recommends
        1 <= group.len() <= 4,
{
    match classify_all(group) {
        Err(error) => Err(error),
        Ok(symbols) => match group_slots(symbols) {
            Err(error) => Err(error),
            Ok(slots) => Ok(present(slots@)),
        },
    }
}

/// Where the last group of an input of `len` bytes begins. Groups are four
/// bytes long, except that the last one holds what is left: one to four
/// bytes.
pub open spec fn last_group_start(len: nat) -> nat {
    if len == 0 {
        0
    } else {
        (4 * ((len - 1) / 4)) as nat
    }
}

/// What a sequence of input bytes decodes to.
///
/// The empty input decodes to the empty text. Any other input decodes to
/// what stands before its last group, followed by what the last group
/// decodes to. The leftmost failure is the one reported.
pub open spec fn decoded(bytes: Seq<u8>) -> Result<Seq<char>, Error>
    decreases bytes.len(),
{
    if bytes.len() == 0 {
        Ok(Seq::empty())
    } else {
        let start = last_group_start(bytes.len()) as int;
        match decoded(bytes.take(start)) {
            Err(error) => Err(error),
            Ok(head) => match decode_group(bytes.skip(start)) {
                Err(error) => Err(error),
                Ok(tail) => Ok(head + tail),
            },
        }
    }
}

/// A result of [`decode`] as the contracts speak of it: a text by its
/// characters.
pub open spec fn text_of(outcome: Result<String, Error>) -> Result<Seq<char>, Error> {
    match outcome {
        Ok(text) => Ok(text@),
        Err(error) => Err(error),
    }
}

/// A failure before a group boundary is the failure of the whole input.
pub proof fn lemma_failure_stays(bytes: Seq<u8>, boundary: int)
    requires
        0 <= boundary <= bytes.len(),
        boundary % 4 == 0 || boundary == bytes.len(),
        decoded(bytes.take(boundary)) is Err,
    ensures
        decoded(bytes) == decoded(bytes.take(boundary)),
    decreases bytes.len(),
{
    if boundary == bytes.len() {
        assert(bytes.take(boundary) =~= bytes);
    } else {
        let start = last_group_start(bytes.len()) as int;
        assert(boundary <= start);
        assert(bytes.take(start).take(boundary) =~= bytes.take(boundary));
        lemma_failure_stays(bytes.take(start), boundary);
    }
}

/// The decoding up to the end of a group: that up to its start, followed by
/// the group's own.
pub proof fn lemma_next_group(bytes: Seq<u8>, start: int, end: int)
    requires
        0 <= start < end <= bytes.len(),
        start % 4 == 0,
        end <= start + 4,
    ensures
        decoded(bytes.take(end)) == match decoded(bytes.take(start)) {
            Err(error) => Err(error),
            Ok(head) => match decode_group(bytes.subrange(start, end)) {
                Err(error) => Err(error),
                Ok(tail) => Ok(head + tail),
            },
        },
{
    let prefix = bytes.take(end);
    assert(last_group_start(prefix.len()) == start);
    assert(prefix.take(start) =~= bytes.take(start));
    assert(prefix.skip(start) =~= bytes.subrange(start, end));
}

/// A byte outside the alphabet makes every longer run fail in the same way.
pub proof fn lemma_classify_failure_stays(bytes: Seq<u8>, seen: int)
    requires
        0 <= seen <= bytes.len(),
        classify_all(bytes.take(seen)) is Err,
    ensures
        classify_all(bytes) == classify_all(bytes.take(seen)),
    decreases bytes.len(),
{
    if seen == bytes.len() {
        assert(bytes.take(seen) =~= bytes);
    } else {
        assert(bytes.drop_last().take(seen) =~= bytes.take(seen));
        lemma_classify_failure_stays(bytes.drop_last(), seen);
    }
}

/// Classifies the bytes of one group, stopping at the first that is not in
/// the alphabet.
fn classify_chunk(bytes: &[u8], start: usize, end: usize) -> (outcome: Result<
    Vec<Character>,
    Error,
>)
    requires
        start <= end <= bytes@.len(),
    ensures
        match outcome {
            Ok(symbols) => classify_all(bytes@.subrange(start as int, end as int)) == Ok::<
                Seq<Character>,
                Error,
            >(symbols@) && symbols@.len() == end - start,
            Err(error) => classify_all(bytes@.subrange(start as int, end as int)) == Err::<
                Seq<Character>,
                Error,
            >(error),
        },
{
    let ghost group = bytes@.subrange(start as int, end as int);
    let mut symbols: Vec<Character> = Vec::new();
    let mut at: usize = start;
    while at < end
        invariant
            start <= at <= end <= bytes@.len(),
            group == bytes@.subrange(start as int, end as int),
            classify_all(group.take(at - start)) == Ok::<Seq<Character>, Error>(symbols@),
            symbols@.len() == at - start,
        decreases end - at,
    {
        let ghost seen = group.take(at - start + 1);
        assert(seen.drop_last() =~= group.take(at - start));
        assert(seen.last() == bytes@[at as int]);
        match get_byte_from_byte(&bytes[at]) {
            Ok(symbol) => {
                symbols.push(symbol);
            },
            Err(error) => {
                proof {
                    lemma_classify_failure_stays(group, at - start + 1);
                }
                return Err(error);
            },
        }
        at = at + 1;
    }
    assert(group.take(end - start) =~= group);
    Ok(symbols)
}

/// Reads the byte slots off the symbols of one group.
fn convert_chunk(chunk: &Vec<Character>) -> (outcome: Result<[Option<char>; 3], Error>)
    requires
        1 <= chunk@.len() <= 4,
    ensures
        outcome == group_slots(chunk@),
{
    let count: usize = chunk.len();
    if count == 4 {
        convert_to_ascii_bytes_from_array(chunk.as_slice())
    } else if count == 3 {
        convert_to_ascii_bytes(chunk[0], chunk[1], chunk[2], Character::Padding)
    } else if count == 2 {
        convert_to_ascii_bytes(chunk[0], chunk[1], Character::Padding, Character::Padding)
    } else {
        Err(Error::InvalidBytes([chunk[0].into(), ' ', ' ', ' ']))
    }
}

/// Appends the characters that are there to `text`.
fn push_present(text: &mut String, slots: &[Option<char>; 3])
    ensures
        final(text)@ == old(text)@ + present(slots@),
{
    let ghost before = text@;
    let mut at: usize = 0;
    assert(slots@.take(0) =~= Seq::<Option<char>>::empty());
    assert(before + present(slots@.take(0)) =~= before);
    while at < 3
        invariant
            at <= 3,
            text@ == before + present(slots@.take(at as int)),
        decreases 3 - at,
    {
        let ghost seen = slots@.take(at + 1);
        assert(seen.drop_last() =~= slots@.take(at as int));
        assert(seen.last() == slots@[at as int]);
        if let Some(character) = slots[at] {
            text.push(character);
        }
        at = at + 1;
    }
    assert(slots@.take(3) =~= slots@);
}

/// Decodes Base64 text, with or without its padding.
pub fn decode(input: &str) -> (outcome: Result<String, Error>)
    ensures
        text_of(outcome) == decoded(input.spec_bytes()),
{
    let bytes = input.as_bytes();
    let len: usize = bytes.len();
    let mut final_word = String::new();
    let mut start: usize = 0;
    assert(bytes@.take(0) =~= Seq::<u8>::empty());
    while start < len
        invariant
            bytes@ == input.spec_bytes(),
            len == bytes@.len(),
            start <= len,
            start % 4 == 0 || start == len,
            decoded(bytes@.take(start as int)) == Ok::<Seq<char>, Error>(final_word@),
        decreases len - start,
    {
        let end: usize = if len - start >= 4 {
            start + 4
        } else {
            len
        };
        proof {
            lemma_next_group(bytes@, start as int, end as int);
        }
        let chunk = match classify_chunk(bytes, start, end) {
            Ok(chunk) => chunk,
            Err(error) => {
                proof {
                    lemma_failure_stays(bytes@, end as int);
                }
                return Err(error);
            },
        };
        let slots = match convert_chunk(&chunk) {
            Ok(slots) => slots,
            Err(error) => {
                proof {
                    lemma_failure_stays(bytes@, end as int);
                }
                return Err(error);
            },
        };
        push_present(&mut final_word, &slots);
        start = end;
    }
    assert(bytes@.take(len as int) =~= bytes@);
    Ok(final_word)
}

} // verus!
