//! Little-endian integers in a byte buffer.

use byteorder::{LittleEndian, ReadBytesExt, WriteBytesExt};
use std::io::Cursor;
use vstd::prelude::*;

verus! {

/// The number that four bytes hold, least significant byte first.
pub open spec fn le_u32(bytes: Seq<u8>) -> nat
    recommends
        bytes.len() == 4,
{
    (bytes[0] as nat) + (bytes[1] as nat) * 0x100 + (bytes[2] as nat) * 0x1_0000 + (
    bytes[3] as nat) * 0x100_0000
}

/// The number that eight bytes hold, least significant byte first.
pub open spec fn le_u64(bytes: Seq<u8>) -> nat
    recommends
        bytes.len() == 8,
{
    le_u32(bytes.subrange(0, 4)) + le_u32(bytes.subrange(4, 8)) * 0x1_0000_0000
}

/// The four bytes of a 32-bit number, least significant byte first.
pub open spec fn le_bytes_u32(value: u32) -> Seq<u8> {
    seq![
        (value % 0x100) as u8,
        (value / 0x100 % 0x100) as u8,
        (value / 0x1_0000 % 0x100) as u8,
        (value / 0x100_0000) as u8,
    ]
}

/// Four bytes hold a number below 2^32, and the four bytes written for a
/// number hold that number.
pub proof fn lemma_le_u32(value: u32, bytes: Seq<u8>)
    ensures
        le_u32(bytes) <= u32::MAX,
        le_bytes_u32(value).len() == 4,
        le_u32(le_bytes_u32(value)) == value,
{
}

/// The eight bytes of a 64-bit number, least significant byte first.
pub open spec fn le_bytes_u64(value: u64) -> Seq<u8> {
    le_bytes_u32((value % 0x1_0000_0000) as u32) + le_bytes_u32((value / 0x1_0000_0000) as u32)
}

/// The four bytes written for the number that four bytes hold are those
/// four bytes.
pub proof fn lemma_le_bytes_u32(bytes: Seq<u8>)
    requires
        bytes.len() == 4,
    ensures
        le_bytes_u32(le_u32(bytes) as u32) == bytes,
{
    let value = le_u32(bytes);
    assert(value % 0x100 == bytes[0]);
    assert(value / 0x100 % 0x100 == bytes[1]);
    assert(value / 0x1_0000 % 0x100 == bytes[2]);
    assert(value / 0x100_0000 == bytes[3]);
    assert(le_bytes_u32(value as u32) =~= bytes);
}

/// The eight bytes written for the number that eight bytes hold are those
/// eight bytes.
pub proof fn lemma_le_bytes_u64(bytes: Seq<u8>)
    requires
        bytes.len() == 8,
    ensures
        le_bytes_u64(le_u64(bytes) as u64) == bytes,
{
    let low = le_u32(bytes.subrange(0, 4));
    let high = le_u32(bytes.subrange(4, 8));
    lemma_le_u32(0, bytes.subrange(0, 4));
    lemma_le_u32(0, bytes.subrange(4, 8));
    lemma_le_bytes_u32(bytes.subrange(0, 4));
    lemma_le_bytes_u32(bytes.subrange(4, 8));
    let value = le_u64(bytes);
    assert(value % 0x1_0000_0000 == low);
    assert(value / 0x1_0000_0000 == high);
    assert(bytes.subrange(0, 4) + bytes.subrange(4, 8) =~= bytes);
}

/// `ReadBytesExt::read_u8` of byteorder on a cursor over `buffer` set to
/// `position`: the byte at that place.
#[verifier::external_body]
pub(crate) fn read_u8_at(buffer: &[u8], position: usize) -> (value: u8)
    requires
        position < buffer@.len(),
    ensures
        value == buffer@[position as int],
{
    let mut cursor = Cursor::new(buffer);
    cursor.set_position(position as u64);
    cursor.read_u8().unwrap()
}

/// `ReadBytesExt::read_u32::<LittleEndian>` of byteorder on a cursor over
/// `buffer` set to `position`: the four bytes from that place on, read as a
/// little-endian number.
#[verifier::external_body]
pub(crate) fn read_u32_le_at(buffer: &[u8], position: usize) -> (value: u32)
    requires
        position + 4 <= buffer@.len(),
    ensures
        value == le_u32(buffer@.subrange(position as int, position + 4)),
{
    let mut cursor = Cursor::new(buffer);
    cursor.set_position(position as u64);
    cursor.read_u32::<LittleEndian>().unwrap()
}

/// `ReadBytesExt::read_u64::<LittleEndian>` of byteorder on a cursor over
/// `buffer` set to `position`: the eight bytes from that place on, read as a
/// little-endian number.
#[verifier::external_body]
pub(crate) fn read_u64_le_at(buffer: &[u8], position: usize) -> (value: u64)
    requires
        position + 8 <= buffer@.len(),
    ensures
        value == le_u64(buffer@.subrange(position as int, position + 8)),
{
    let mut cursor = Cursor::new(buffer);
    cursor.set_position(position as u64);
    cursor.read_u64::<LittleEndian>().unwrap()
}

/// `WriteBytesExt::write_u32::<LittleEndian>` of byteorder on a cursor over
/// the four bytes of `buffer` from `position` on: those four bytes become
/// the little-endian bytes of `value`, and the others stay.
#[verifier::external_body]
pub(crate) fn write_u32_le_at(buffer: &mut Vec<u8>, position: usize, value: u32)
    requires
        position + 4 <= old(buffer)@.len(),
    ensures
        final(buffer)@ == old(buffer)@.subrange(0, position as int) + le_bytes_u32(value) + old(
            buffer,
        )@.subrange(position + 4, old(buffer)@.len() as int),
{
    let mut cursor = Cursor::new(&mut buffer[position..position + 4]);
    cursor.write_u32::<LittleEndian>(value).unwrap();
}

} // verus!
