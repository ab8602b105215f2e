//! A reader of unsigned integers of up to 32 bits from a byte buffer. Bits
//! are taken from each byte starting at its least significant bit.

use crate::byte_order::le_u32;
use vstd::arithmetic::power2::{lemma2_to64, lemma_pow2_pos, lemma_pow2_unfold, pow2};
use vstd::bits::{lemma_u32_shl_is_mul, lemma_u8_shr_is_div};
use vstd::prelude::*;

verus! {

/// The bit at `position`, counted from the least significant bit of the
/// first byte on.
pub open spec fn bit_at(data: Seq<u8>, position: nat) -> nat
    recommends
        position < 8 * data.len(),
{
    (data[(position / 8) as int] as nat / pow2(position % 8)) % 2
}

/// The number that `count` bits from `position` on hold, the first bit
/// being the least significant.
pub open spec fn bits_value(data: Seq<u8>, position: nat, count: nat) -> nat
    recommends
        position + count <= 8 * data.len(),
    decreases count,
{
    if count == 0 {
        0
    } else {
        bits_value(data, position, (count - 1) as nat) + bit_at(
            data,
            (position + count - 1) as nat,
        ) * pow2((count - 1) as nat)
    }
}

/// A number of `count` bits is below 2 to the power of `count`.
pub proof fn lemma_bits_value_bound(data: Seq<u8>, position: nat, count: nat)
    ensures
        bits_value(data, position, count) < pow2(count),
    decreases count,
{
    if count == 0 {
        lemma2_to64();
    } else {
        lemma_bits_value_bound(data, position, (count - 1) as nat);
        lemma_pow2_unfold(count);
        let bit = bit_at(data, (position + count - 1) as nat);
        let weight = pow2((count - 1) as nat);
        assert(bit * weight <= weight) by (nonlinear_arith)
            requires
                bit <= 1,
        ;
    }
}

/// Bits read one run after the other make up the number that the two
/// runs hold together.
pub proof fn lemma_bits_value_split(data: Seq<u8>, position: nat, first: nat, second: nat)
    ensures
        bits_value(data, position, first + second) == bits_value(data, position, first)
            + bits_value(data, position + first, second) * pow2(first),
    decreases second,
{
    if second == 0 {
        assert(bits_value(data, position + first, 0) * pow2(first) == 0) by (nonlinear_arith)
            requires
                bits_value(data, position + first, 0) == 0,
        ;
    } else {
        let less = (second - 1) as nat;
        lemma_bits_value_split(data, position, first, less);
        vstd::arithmetic::power2::lemma_pow2_adds(less, first);
        let bit = bit_at(data, (position + first + second - 1) as nat);
        let low = bits_value(data, position + first, less);
        assert((low + bit * pow2(less)) * pow2(first) == low * pow2(first) + bit * (pow2(less)
            * pow2(first))) by (nonlinear_arith);
    }
}

/// The bit `offset` of the byte at `index` is the bit at the position
/// `8 * index + offset`.
pub proof fn lemma_bit_in_byte(data: Seq<u8>, index: nat, offset: nat)
    requires
        offset < 8,
    ensures
        bit_at(data, 8 * index + offset) == (data[index as int] as nat / pow2(offset)) % 2,
{
    let position = 8 * index + offset;
    assert(position / 8 == index);
    assert(position % 8 == offset);
}

proof fn lemma_byte_bits(byte: u8)
    by (bit_vector)
    ensures
        byte == byte % 2 + (byte / 2 % 2) * 2 + (byte / 4 % 2) * 4 + (byte / 8 % 2) * 8 + (byte
            / 16 % 2) * 16 + (byte / 32 % 2) * 32 + (byte / 64 % 2) * 64 + (byte / 128 % 2) * 128,
{
}

/// Eight bits from the start of a byte on hold that byte.
pub proof fn lemma_bits_value_byte(data: Seq<u8>, index: nat)
    requires
        index < data.len(),
    ensures
        bits_value(data, 8 * index, 8) == data[index as int],
{
    lemma2_to64();
    let byte = data[index as int];
    lemma_bit_in_byte(data, index, 0);
    lemma_bit_in_byte(data, index, 1);
    lemma_bit_in_byte(data, index, 2);
    lemma_bit_in_byte(data, index, 3);
    lemma_bit_in_byte(data, index, 4);
    lemma_bit_in_byte(data, index, 5);
    lemma_bit_in_byte(data, index, 6);
    lemma_bit_in_byte(data, index, 7);
    lemma_byte_bits(byte);
    let start = 8 * index;
    let b = byte as nat;
    assert(bits_value(data, start, 0) == 0);
    assert(bits_value(data, start, 1) == b % 2) by {
        assert(bit_at(data, (start + 1 - 1) as nat) * pow2(0) == b % 2);
    }
    assert(bits_value(data, start, 2) == b % 2 + (b / 2 % 2) * 2) by {
        assert(bit_at(data, (start + 2 - 1) as nat) * pow2(1) == (b / 2 % 2) * 2);
    }
    assert(bits_value(data, start, 3) == bits_value(data, start, 2) + (b / 4 % 2) * 4) by {
        assert(bit_at(data, (start + 3 - 1) as nat) * pow2(2) == (b / 4 % 2) * 4);
    }
    assert(bits_value(data, start, 4) == bits_value(data, start, 3) + (b / 8 % 2) * 8) by {
        assert(bit_at(data, (start + 4 - 1) as nat) * pow2(3) == (b / 8 % 2) * 8);
    }
    assert(bits_value(data, start, 5) == bits_value(data, start, 4) + (b / 16 % 2) * 16) by {
        assert(bit_at(data, (start + 5 - 1) as nat) * pow2(4) == (b / 16 % 2) * 16);
    }
    assert(bits_value(data, start, 6) == bits_value(data, start, 5) + (b / 32 % 2) * 32) by {
        assert(bit_at(data, (start + 6 - 1) as nat) * pow2(5) == (b / 32 % 2) * 32);
    }
    assert(bits_value(data, start, 7) == bits_value(data, start, 6) + (b / 64 % 2) * 64) by {
        assert(bit_at(data, (start + 7 - 1) as nat) * pow2(6) == (b / 64 % 2) * 64);
    }
    assert(bits_value(data, start, 8) == bits_value(data, start, 7) + (b / 128 % 2) * 128) by {
        assert(bit_at(data, (start + 8 - 1) as nat) * pow2(7) == (b / 128 % 2) * 128);
    }
}

/// The first bit of a byte is the byte's remainder on division by two.
pub proof fn lemma_bits_value_flag(data: Seq<u8>, index: nat)
    ensures
        bits_value(data, 8 * index, 1) == data[index as int] as nat % 2,
{
    lemma2_to64();
    lemma_bit_in_byte(data, index, 0);
    assert(bits_value(data, 8 * index, 0) == 0);
    assert(bit_at(data, (8 * index + 1 - 1) as nat) * pow2(0) == data[index as int] as nat % 2);
}

/// Thirty-two bits from the start of a byte on hold the little-endian
/// number of that byte and the three that follow.
pub proof fn lemma_bits_value_u32(data: Seq<u8>, index: nat)
    requires
        index + 4 <= data.len(),
    ensures
        bits_value(data, 8 * index, 32) == le_u32(data.subrange(index as int, index + 4 as int)),
{
    lemma2_to64();
    lemma_bits_value_split(data, 8 * index, 8, 24);
    lemma_bits_value_split(data, 8 * index + 8, 8, 16);
    lemma_bits_value_split(data, 8 * index + 16, 8, 8);
    lemma_bits_value_byte(data, index);
    lemma_bits_value_byte(data, index + 1);
    lemma_bits_value_byte(data, index + 2);
    lemma_bits_value_byte(data, index + 3);
    let b0 = data[index as int] as nat;
    let b1 = data[(index + 1) as int] as nat;
    let b2 = data[(index + 2) as int] as nat;
    let b3 = data[(index + 3) as int] as nat;
    assert(bits_value(data, 8 * index + 16, 16) == b2 + b3 * 0x100);
    assert(bits_value(data, 8 * index + 8, 24) == b1 + (b2 + b3 * 0x100) * 0x100);
    assert(bits_value(data, 8 * index, 32) == b0 + (b1 + (b2 + b3 * 0x100) * 0x100) * 0x100);
}

proof fn lemma_or_is_add(accumulated: u32, bit: u32, shift: u32)
    by (bit_vector)
    requires
        shift < 32,
        bit <= 1,
        accumulated < (1u32 << shift),
    ensures
        accumulated | (bit << shift) == accumulated + (bit << shift),
{
}

proof fn lemma_low_bit(byte: u8)
    by (bit_vector)
    ensures
        byte & 1 == byte % 2,
{
}

/// A reader over a byte buffer, with a cursor that counts bits from the
/// least significant bit of the first byte.
pub struct BitStreamReader {
    pub data: Vec<u8>,
    pub cursor: usize,
}

impl BitStreamReader {
    /// The position of every bit of the data fits in a machine word.
    pub open spec fn addressable(&self) -> bool {
        8 * self.data@.len() <= usize::MAX
    }

    /// `count` more bits lie between the cursor and the end of the data.
    pub open spec fn holds(&self, count: nat) -> bool {
        self.cursor + count <= 8 * self.data@.len()
    }

    /// A reader over `data` with its cursor at the bit `offset`.
    pub fn new(data: Vec<u8>, offset: usize) -> (reader: Self)
        ensures
            reader.data == data,
            reader.cursor == offset,
    {
        Self { data, cursor: offset }
    }

    /// Whether `count` more bits can be read.
    pub fn has_bits(&self, count: usize) -> (enough: bool)
        requires
            self.addressable(),
        ensures
            enough == self.holds(count as nat),
    {
        let all_bits: usize = 8 * self.data.len();
        self.cursor <= all_bits && count <= all_bits - self.cursor
    }

    /// Reads one bit.
    pub fn read_bit(&mut self) -> (bit: u8)
        requires
            old(self).addressable(),
            old(self).holds(1),
        ensures
            bit == bit_at(old(self).data@, old(self).cursor as nat),
            bit <= 1,
            final(self).data == old(self).data,
            final(self).cursor == old(self).cursor + 1,
    {
        let byte_index = self.cursor / 8;
        let bit_index = self.cursor % 8;
        let byte: u8 = self.data[byte_index];
        let shift: u8 = bit_index as u8;
        proof {
            lemma_u8_shr_is_div(byte, shift);
            lemma_low_bit(byte >> shift);
        }
        let bit = (byte >> shift) & 1;
        self.cursor += 1;
        bit
    }

    /// Reads `num_bits` bits as a number, the first bit read being the
    /// least significant.
    pub fn read_bits_as_number(&mut self, num_bits: usize) -> (value: u32)
        requires
            num_bits <= 32,
            old(self).addressable(),
            old(self).holds(num_bits as nat),
        ensures
            value == bits_value(old(self).data@, old(self).cursor as nat, num_bits as nat),
            value < pow2(num_bits as nat),
            final(self).data == old(self).data,
            final(self).cursor == old(self).cursor + num_bits,
    {
        let mut result: u32 = 0;
        let mut i: u32 = 0;
        proof {
            lemma2_to64();
        }
        while i < num_bits as u32
            invariant
                i <= num_bits <= 32,
                self.data == old(self).data,
                self.addressable(),
                self.cursor == old(self).cursor + i,
                old(self).holds(num_bits as nat),
                result == bits_value(old(self).data@, old(self).cursor as nat, i as nat),
                result < pow2(i as nat),
            decreases num_bits - i,
        {
            let bit = self.read_bit();
            proof {
                lemma_pow2_unfold((i + 1) as nat);
                lemma_pow2_pos(i as nat);
                lemma2_to64();
                assert(pow2(i as nat) <= 0x8000_0000) by {
                    if i < 31 {
                        vstd::arithmetic::power2::lemma_pow2_strictly_increases(i as nat, 31);
                    }
                }
                assert((bit as u32) * pow2(i as nat) <= pow2(i as nat)) by (nonlinear_arith)
                    requires
                        bit <= 1,
                ;
                lemma_u32_shl_is_mul(bit as u32, i);
                lemma_u32_shl_is_mul(1u32, i);
                lemma_or_is_add(result, bit as u32, i);
            }
            result |= (bit as u32) << i;
            i += 1;
        }
        result
    }

    /// Reads one bit as a truth value.
    pub fn read_bool(&mut self) -> (value: bool)
        requires
            old(self).addressable(),
            old(self).holds(1),
        ensures
            value == (bits_value(old(self).data@, old(self).cursor as nat, 1) == 1),
            final(self).data == old(self).data,
            final(self).cursor == old(self).cursor + 1,
    {
        self.read_bits_as_number(1) == 1
    }

    /// Reads an unsigned integer of `x` bits.
    pub fn read_uint_n(&mut self, x: usize) -> (value: u32)
        requires
            x <= 32,
            old(self).addressable(),
            old(self).holds(x as nat),
        ensures
            value == bits_value(old(self).data@, old(self).cursor as nat, x as nat),
            value < pow2(x as nat),
            final(self).data == old(self).data,
            final(self).cursor == old(self).cursor + x,
    {
        self.read_bits_as_number(x)
    }

    /// Reads an unsigned integer of two bits.
    pub fn read_uint2(&mut self) -> (value: u8)
        requires
            old(self).addressable(),
            old(self).holds(2),
        ensures
            value == bits_value(old(self).data@, old(self).cursor as nat, 2),
            value < 4,
            final(self).data == old(self).data,
            final(self).cursor == old(self).cursor + 2,
    {
        proof {
            lemma2_to64();
        }
        self.read_bits_as_number(2) as u8
    }

    /// Reads an unsigned integer of three bits.
    pub fn read_uint3(&mut self) -> (value: u8)
        requires
            old(self).addressable(),
            old(self).holds(3),
        ensures
            value == bits_value(old(self).data@, old(self).cursor as nat, 3),
            value < 8,
            final(self).data == old(self).data,
            final(self).cursor == old(self).cursor + 3,
    {
        proof {
            lemma2_to64();
        }
        self.read_bits_as_number(3) as u8
    }

    /// Reads an unsigned integer of four bits.
    pub fn read_uint4(&mut self) -> (value: u8)
        requires
            old(self).addressable(),
            old(self).holds(4),
        ensures
            value == bits_value(old(self).data@, old(self).cursor as nat, 4),
            value < 16,
            final(self).data == old(self).data,
            final(self).cursor == old(self).cursor + 4,
    {
        proof {
            lemma2_to64();
        }
        self.read_bits_as_number(4) as u8
    }

    /// Reads an unsigned integer of five bits.
    pub fn read_uint5(&mut self) -> (value: u8)
        requires
            old(self).addressable(),
            old(self).holds(5),
        ensures
            value == bits_value(old(self).data@, old(self).cursor as nat, 5),
            value < 32,
            final(self).data == old(self).data,
            final(self).cursor == old(self).cursor + 5,
    {
        proof {
            lemma2_to64();
        }
        self.read_bits_as_number(5) as u8
    }

    /// Reads an unsigned integer of six bits.
    pub fn read_uint6(&mut self) -> (value: u8)
        requires
            old(self).addressable(),
            old(self).holds(6),
        ensures
            value == bits_value(old(self).data@, old(self).cursor as nat, 6),
            value < 64,
            final(self).data == old(self).data,
            final(self).cursor == old(self).cursor + 6,
    {
        proof {
            lemma2_to64();
        }
        self.read_bits_as_number(6) as u8
    }

    /// Reads an unsigned integer of eight bits.
    pub fn read_uint8(&mut self) -> (value: u8)
        requires
            old(self).addressable(),
            old(self).holds(8),
        ensures
            value == bits_value(old(self).data@, old(self).cursor as nat, 8),
            final(self).data == old(self).data,
            final(self).cursor == old(self).cursor + 8,
    {
        proof {
            lemma2_to64();
        }
        self.read_bits_as_number(8) as u8
    }

    /// Reads an unsigned integer of sixteen bits.
    pub fn read_uint16(&mut self) -> (value: u16)
        requires
            old(self).addressable(),
            old(self).holds(16),
        ensures
            value == bits_value(old(self).data@, old(self).cursor as nat, 16),
            final(self).data == old(self).data,
            final(self).cursor == old(self).cursor + 16,
    {
        proof {
            lemma2_to64();
        }
        self.read_bits_as_number(16) as u16
    }

    /// Reads an unsigned integer of twenty-four bits.
    pub fn read_uint24(&mut self) -> (value: u32)
        requires
            old(self).addressable(),
            old(self).holds(24),
        ensures
            value == bits_value(old(self).data@, old(self).cursor as nat, 24),
            value < 0x100_0000,
            final(self).data == old(self).data,
            final(self).cursor == old(self).cursor + 24,
    {
        proof {
            lemma2_to64();
        }
        self.read_bits_as_number(24)
    }

    /// Reads an unsigned integer of thirty-two bits.
    pub fn read_uint32(&mut self) -> (value: u32)
        requires
            old(self).addressable(),
            old(self).holds(32),
        ensures
            value == bits_value(old(self).data@, old(self).cursor as nat, 32),
            final(self).data == old(self).data,
            final(self).cursor == old(self).cursor + 32,
    {
        self.read_bits_as_number(32)
    }
}

} // verus!
