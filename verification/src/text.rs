//! Text as it stands in a comment packet: UTF-8 bytes, field names in
//! ASCII upper case, and a line split at its first "=".

use vstd::prelude::*;
use vstd::utf8::{
    decode_first_codepoint, encode_utf8, encode_utf8_decode_utf8,
    is_char_boundary_iff_not_is_continuation_byte, is_leading_byte_width_1,
    is_leading_byte_width_2, is_leading_byte_width_3, length_of_first_scalar, pop_first_scalar,
    valid_first_scalar, valid_utf8, valid_utf8_split,
};

verus! {

/// The byte "=" that parts a field name from its value.
pub const SEPARATOR: u8 = 0x3d;

/// A byte with an ASCII small letter turned into its capital.
pub open spec fn upper_byte(byte: u8) -> u8 {
    if 0x61 <= byte <= 0x7a {
        (byte - 0x20) as u8
    } else {
        byte
    }
}

/// Bytes with every ASCII small letter turned into its capital.
pub open spec fn upper(bytes: Seq<u8>) -> Seq<u8> {
    Seq::new(bytes.len(), |i: int| upper_byte(bytes[i]))
}

/// The line has its first "=" at `at`.
pub open spec fn splits_at(line: Seq<u8>, at: int) -> bool {
    &&& 0 <= at < line.len()
    &&& line[at] == SEPARATOR
    &&& forall|j: int| 0 <= j < at ==> line[j] != SEPARATOR
}

/// The line holds a "=".
pub open spec fn has_separator(line: Seq<u8>) -> bool {
    exists|at: int| splits_at(line, at)
}

/// The place of the first "=" of a line that holds one.
pub open spec fn separator_of(line: Seq<u8>) -> int
    recommends
        has_separator(line),
{
    choose|at: int| splits_at(line, at)
}

/// The field name of a line that holds a "=": what stands before the
/// first "=", in upper case.
pub open spec fn key_of(line: Seq<u8>) -> Seq<u8>
    recommends
        has_separator(line),
{
    upper(line.subrange(0, separator_of(line)))
}

/// The value of a line that holds a "=": what follows the first "=".
pub open spec fn value_of(line: Seq<u8>) -> Seq<u8>
    recommends
        has_separator(line),
{
    line.subrange(separator_of(line) + 1, line.len() as int)
}

/// A line has only one first "=".
pub proof fn lemma_separator_unique(line: Seq<u8>, at: int)
    requires
        splits_at(line, at),
    ensures
        has_separator(line),
        separator_of(line) == at,
{
    let other = separator_of(line);
    assert(splits_at(line, other));
    if other < at {
        assert(line[other] != SEPARATOR);
    }
    if at < other {
        assert(line[at] != SEPARATOR);
    }
}

/// A line without "=" has no place where it splits.
pub proof fn lemma_no_separator(line: Seq<u8>)
    requires
        forall|j: int| 0 <= j < line.len() ==> line[j] != SEPARATOR,
    ensures
        !has_separator(line),
{
    if has_separator(line) {
        let at = separator_of(line);
        assert(splits_at(line, at));
        assert(line[at] != SEPARATOR);
    }
}

/// Two texts with the same UTF-8 bytes are the same text.
pub proof fn lemma_encode_injective(first: Seq<char>, second: Seq<char>)
    requires
        encode_utf8(first) == encode_utf8(second),
    ensures
        first == second,
{
    encode_utf8_decode_utf8(first);
    encode_utf8_decode_utf8(second);
}

/// Turning ASCII small letters into capitals keeps UTF-8 valid.
pub proof fn lemma_upper_valid(bytes: Seq<u8>)
    requires
        valid_utf8(bytes),
    ensures
        valid_utf8(upper(bytes)),
    decreases bytes.len(),
{
    if bytes.len() > 0 {
        let changed = upper(bytes);
        let rest = pop_first_scalar(bytes);
        assert(valid_first_scalar(bytes));
        assert(valid_utf8(rest));
        if is_leading_byte_width_1(bytes[0]) {
            assert(is_leading_byte_width_1(changed[0]));
        } else if is_leading_byte_width_2(bytes[0]) {
            assert(changed[0] == bytes[0] && changed[1] == bytes[1]);
        } else if is_leading_byte_width_3(bytes[0]) {
            assert(changed[0] == bytes[0] && changed[1] == bytes[1] && changed[2] == bytes[2]);
        } else {
            assert(changed[0] == bytes[0] && changed[1] == bytes[1] && changed[2] == bytes[2]
                && changed[3] == bytes[3]);
        }
        assert(length_of_first_scalar(changed) == length_of_first_scalar(bytes));
        assert(valid_first_scalar(changed));
        assert(pop_first_scalar(changed) =~= upper(rest));
        lemma_upper_valid(rest);
    }
}

/// A valid UTF-8 line that splits at `at` is valid UTF-8 on both sides of
/// its "=".
pub proof fn lemma_split_valid(line: Seq<u8>, at: int)
    requires
        valid_utf8(line),
        0 <= at < line.len(),
        line[at] == SEPARATOR,
    ensures
        valid_utf8(line.subrange(0, at)),
        valid_utf8(line.subrange(at + 1, line.len() as int)),
{
    is_char_boundary_iff_not_is_continuation_byte(line, at);
    valid_utf8_split(line, at);
    let tail = line.subrange(at, line.len() as int);
    assert(tail[0] == SEPARATOR);
    assert(valid_first_scalar(tail));
    assert(pop_first_scalar(tail) =~= line.subrange(at + 1, line.len() as int));
}

/// Valid UTF-8 texts around a "=" make a valid UTF-8 line.
pub proof fn lemma_join_valid(key: Seq<u8>, value: Seq<u8>)
    requires
        valid_utf8(key),
        valid_utf8(value),
    ensures
        valid_utf8(key + seq![SEPARATOR] + value),
{
    let one = seq![SEPARATOR];
    assert(valid_utf8(one)) by {
        reveal_with_fuel(valid_utf8, 2);
        assert(is_leading_byte_width_1(one[0]));
        assert(decode_first_codepoint(one) == 0x3d) by {
            assert(vstd::utf8::leading_bits_width_1(0x3du8) == 0x3d) by (bit_vector);
        }
        assert(valid_first_scalar(one));
        assert(pop_first_scalar(one) =~= Seq::<u8>::empty());
    }
    vstd::utf8::valid_utf8_concat(key, one);
    vstd::utf8::valid_utf8_concat(key + one, value);
}

/// `String::from_utf8` of std: the text that the bytes encode, or nothing
/// when the bytes are not valid UTF-8.
#[verifier::external_body]
pub(crate) fn string_from_utf8(bytes: Vec<u8>) -> (text: Option<String>)
    ensures
        text is Some <==> valid_utf8(bytes@),
        text is Some ==> encode_utf8(text->Some_0@) == bytes@,
{
    match String::from_utf8(bytes) {
        Ok(text) => Some(text),
        Err(_) => None,
    }
}

/// A copy of bytes with every ASCII small letter turned into its capital.
pub fn to_upper(bytes: &[u8]) -> (changed: Vec<u8>)
    ensures
        changed@ == upper(bytes@),
{
    let mut changed: Vec<u8> = Vec::with_capacity(bytes.len());
    let mut i: usize = 0;
    while i < bytes.len()
        invariant
            i <= bytes@.len(),
            changed@ == upper(bytes@.subrange(0, i as int)),
        decreases bytes@.len() - i,
    {
        let byte = bytes[i];
        if 0x61 <= byte && byte <= 0x7a {
            changed.push(byte - 0x20);
        } else {
            changed.push(byte);
        }
        proof {
            assert(changed@ =~= upper(bytes@.subrange(0, i + 1)));
        }
        i += 1;
    }
    proof {
        assert(bytes@.subrange(0, i as int) =~= bytes@);
    }
    changed
}

/// The place of the first "=" of a line, if it holds one.
pub fn find_separator(line: &[u8]) -> (place: Option<usize>)
    ensures
        place is Some <==> has_separator(line@),
        place is Some ==> place->Some_0 == separator_of(line@) && splits_at(
            line@,
            place->Some_0 as int,
        ),
{
    let mut i: usize = 0;
    while i < line.len()
        invariant
            i <= line@.len(),
            forall|j: int| 0 <= j < i ==> line@[j] != SEPARATOR,
        decreases line@.len() - i,
    {
        if line[i] == SEPARATOR {
            proof {
                lemma_separator_unique(line@, i as int);
            }
            return Some(i);
        }
        i += 1;
    }
    proof {
        lemma_no_separator(line@);
    }
    None
}

} // verus!
