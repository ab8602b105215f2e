//! The CRC-32 of the Ogg container: generator polynomial 0x04C11DB7, most
//! significant bit first, no reflection, no final XOR.

use vstd::prelude::*;

verus! {

/// The generator polynomial, without its leading term.
pub const CRC_POLYNOMIAL: u32 = 0x04C1_1DB7;

/// One step of the polynomial division: the register moves one bit to the
/// left, and the polynomial is subtracted when the bit that left was set.
pub open spec fn crc_shift(crc: u32) -> u32 {
    if crc & 0x8000_0000u32 != 0 {
        (crc << 1u32) ^ 0x04C1_1DB7u32
    } else {
        crc << 1u32
    }
}

/// Eight steps of the division.
pub open spec fn crc_shift8(crc: u32) -> u32 {
    crc_shift(crc_shift(crc_shift(crc_shift(crc_shift(crc_shift(crc_shift(crc_shift(crc))))))))
}

/// The register after one more byte: the byte enters at the top, then
/// eight steps follow.
pub open spec fn crc_byte(crc: u32, byte: u8) -> u32 {
    crc_shift8(crc ^ ((byte as u32) << 24u32))
}

/// The register after all of `bytes`, from left to right, starting at `crc`.
pub open spec fn crc_bytes(crc: u32, bytes: Seq<u8>) -> u32
    decreases bytes.len(),
{
    if bytes.len() == 0 {
        crc
    } else {
        crc_byte(crc_bytes(crc, bytes.drop_last()), bytes.last())
    }
}

/// What the lookup table holds at `index`: the register after the byte
/// `index` alone, starting from zero.
pub open spec fn crc_table_entry(index: u8) -> u32 {
    crc_shift8((index as u32) << 24u32)
}

/// A sequence of 256 words is the lookup table of this CRC.
pub open spec fn is_crc_table(table: Seq<u32>) -> bool {
    &&& table.len() == 256
    &&& forall|i: int| 0 <= i < 256 ==> #[trigger] table[i] == crc_table_entry(i as u8)
}

/// The table turns eight steps into one lookup: the division is linear, so
/// the top byte of the register and the incoming byte can be looked up
/// together and the rest of the register added afterwards.
proof fn lemma_table_step(crc: u32, byte: u8)
    ensures
        ((crc >> 24u32) ^ (byte as u32)) < 256,
        crc_byte(crc, byte) == (crc << 8u32) ^ crc_table_entry(
            ((crc >> 24u32) ^ (byte as u32)) as u8,
        ),
{
    let index: u32 = (crc >> 24u32) ^ (byte as u32);
    assert(index < 256) by (bit_vector)
        requires
            index == (crc >> 24u32) ^ (byte as u32),
    ;
    let small: u8 = index as u8;
    assert(crc_shift8(crc ^ ((byte as u32) << 24u32)) == (crc << 8u32) ^ crc_shift8(
        (small as u32) << 24u32,
    )) by (bit_vector)
        requires
            index == (crc >> 24u32) ^ (byte as u32),
            index < 256,
            small == index as u8,
    ;
}

fn shift_once(crc: u32) -> (next: u32)
    ensures
        next == crc_shift(crc),
{
    if crc & 0x8000_0000u32 != 0 {
        (crc << 1u32) ^ CRC_POLYNOMIAL
    } else {
        crc << 1u32
    }
}

/// Computes the 256 entries of the lookup table.
pub fn crc_table() -> (table: Vec<u32>)
    ensures
        is_crc_table(table@),
{
    let mut table: Vec<u32> = Vec::with_capacity(256);
    let mut index: u32 = 0;
    while index < 256
        invariant
            index <= 256,
            table@.len() == index,
            forall|i: int| 0 <= i < index ==> #[trigger] table@[i] == crc_table_entry(i as u8),
        decreases 256 - index,
    {
        let mut entry: u32 = index << 24u32;
        entry = shift_once(shift_once(shift_once(shift_once(entry))));
        entry = shift_once(shift_once(shift_once(shift_once(entry))));
        table.push(entry);
        index += 1;
    }
    table
}

/// Feeds `buffer[start..end)` into a running CRC, one table lookup per byte.
pub fn crc_update(table: &Vec<u32>, buffer: &[u8], crc: u32, start: usize, end: usize) -> (next: u32)
    requires
        is_crc_table(table@),
        start <= end <= buffer@.len(),
    ensures
        next == crc_bytes(crc, buffer@.subrange(start as int, end as int)),
{
    let mut current: u32 = crc;
    let mut position: usize = start;
    while position < end
        invariant
            is_crc_table(table@),
            start <= position <= end <= buffer@.len(),
            current == crc_bytes(crc, buffer@.subrange(start as int, position as int)),
        decreases end - position,
    {
        let byte: u8 = buffer[position];
        let index: u32 = (current >> 24u32) ^ (byte as u32);
        proof {
            lemma_table_step(current, byte);
            let done = buffer@.subrange(start as int, position as int);
            let more = buffer@.subrange(start as int, position + 1);
            assert(more.drop_last() =~= done);
            assert(more.last() == byte);
        }
        current = (current << 8u32) ^ table[index as usize];
        position += 1;
    }
    current
}

/// The CRC of `buffer[start..end)`, continuing from the running value `crc`.
pub fn vorbis_crc32(buffer: &[u8], crc: u32, start: usize, end: usize) -> (next: u32)
    requires
        start <= end <= buffer@.len(),
    ensures
        next == crc_bytes(crc, buffer@.subrange(start as int, end as int)),
{
    let table = crc_table();
    crc_update(&table, buffer, crc, start, end)
}

} // verus!
