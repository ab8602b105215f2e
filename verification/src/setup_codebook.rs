//! The codebooks of a Vorbis setup header.

use crate::bit_stream::{bits_value, BitStreamReader};
use crate::ogg_vorbis_page::{OggVorbisPage, VorbisFormatError};
use crate::vorbis_math::{
    bit_width, float32_unpack, ilog, lookup1_size, lookup1_values, unpacked, VorbisFloat,
};
use crate::vorbis_setup::{
    incomplete_setup, repeat, repeat_from, within, CodebookView, IVorbisSetupCodebook, Read,
    VorbisSetupCodebookLookupType,
};
use vstd::prelude::*;

verus! {

/// `count` times the same length.
pub open spec fn run(length: u8, count: nat) -> Seq<u8> {
    Seq::new(count, |i: int| length)
}

/// The codeword lengths of an ordered codebook from the entry
/// `current_entry` on, behind those in `so_far`: a run of entries has the
/// length `current_length`, the next run a length one larger, until all
/// entries have a length. The number of entries of a run is written in as
/// many bits as the number of entries still to come is wide. Nothing comes
/// of it where a run is longer than the entries still to come, and where a
/// run has a length that no byte holds.
pub open spec fn ordered_from(
    data: Seq<u8>,
    at: nat,
    entries: nat,
    current_entry: nat,
    current_length: nat,
    so_far: Seq<u8>,
) -> Read<Seq<u8>>
    decreases 8 * data.len() - at,
{
    if current_entry >= entries {
        Some((so_far, at))
    } else {
        let width = bit_width((entries - current_entry) as nat);
        if !within(data, at, width) {
            None
        } else {
            let number = bits_value(data, at, width);
            if current_entry + number > entries || (number > 0 && current_length > 255) {
                None
            } else {
                ordered_from(
                    data,
                    at + width,
                    entries,
                    current_entry + number,
                    current_length + 1,
                    so_far + run(current_length as u8, number),
                )
            }
        }
    }
}

/// The codeword length of one entry of a codebook that is not ordered:
/// five bits that hold the length less one; in a sparse codebook a flag
/// first, and the length zero where it is not set.
pub open spec fn length_at(data: Seq<u8>, at: nat, sparse: bool) -> Read<u8> {
    if sparse {
        if !within(data, at, 1) {
            None
        } else if bits_value(data, at, 1) == 1 {
            if !within(data, at + 1, 5) {
                None
            } else {
                Some(((bits_value(data, at + 1, 5) + 1) as u8, at + 6))
            }
        } else {
            Some((0u8, at + 1))
        }
    } else {
        if !within(data, at, 5) {
            None
        } else {
            Some(((bits_value(data, at, 5) + 1) as u8, at + 5))
        }
    }
}

/// The reading of codeword lengths, one behind the other.
pub open spec fn length_part(data: Seq<u8>, sparse: bool) -> spec_fn(nat) -> Read<u8> {
    |at: nat| length_at(data, at, sparse)
}

/// The codeword lengths of a codebook: a flag that says whether it is
/// ordered, and then the lengths in the one form or the other.
pub open spec fn lengths_at(data: Seq<u8>, at: nat, entries: nat) -> Read<Seq<u8>> {
    if !within(data, at, 1) {
        None
    } else if bits_value(data, at, 1) == 1 {
        if !within(data, at + 1, 5) {
            None
        } else {
            ordered_from(
                data,
                at + 6,
                entries,
                0,
                bits_value(data, at + 1, 5) + 1,
                Seq::empty(),
            )
        }
    } else {
        if !within(data, at + 1, 1) {
            None
        } else {
            repeat(length_part(data, bits_value(data, at + 1, 1) == 1), at + 2, entries)
        }
    }
}

/// A number of at most 32 bits.
pub open spec fn u32_at(data: Seq<u8>, at: nat, width: nat) -> Read<u32> {
    if within(data, at, width) {
        Some((bits_value(data, at, width) as u32, at + width))
    } else {
        None
    }
}

/// The reading of numbers of `width` bits, one behind the other.
pub open spec fn u32_part(data: Seq<u8>, width: nat) -> spec_fn(nat) -> Read<u32> {
    |at: nat| u32_at(data, at, width)
}

/// The lookup table of a codebook as a mathematical value.
pub struct LookupView {
    pub lookup_type: VorbisSetupCodebookLookupType,
    pub minimum_value: Option<VorbisFloat>,
    pub delta_value: Option<VorbisFloat>,
    pub value_bits: Option<u8>,
    pub sequence_p: Option<bool>,
    pub multiplicands: Option<Seq<u32>>,
}

/// The number of values of the lookup table of a codebook.
pub open spec fn lookup_size(lookup_type: nat, entries: nat, dimensions: nat) -> nat {
    if lookup_type == 1 {
        lookup1_size(entries, dimensions)
    } else {
        entries * dimensions
    }
}

/// The lookup table of a codebook: its type, which is at most 2, and for
/// the types 1 and 2 two packed floats, the number of bits of a value less
/// one, a flag, and the values.
pub open spec fn lookup_at(data: Seq<u8>, at: nat, entries: nat, dimensions: nat) -> Read<
    LookupView,
> {
    if !within(data, at, 4) {
        None
    } else if bits_value(data, at, 4) > 2 {
        None
    } else if bits_value(data, at, 4) == 0 {
        Some(
            (
                LookupView {
                    lookup_type: VorbisSetupCodebookLookupType::NoLookup,
                    minimum_value: None,
                    delta_value: None,
                    value_bits: None,
                    sequence_p: None,
                    multiplicands: None,
                },
                at + 4,
            ),
        )
    } else if !within(data, at + 4, 69) {
        None
    } else {
        let value_bits = bits_value(data, at + 68, 4) + 1;
        match repeat(
            u32_part(data, value_bits),
            at + 73,
            lookup_size(bits_value(data, at, 4), entries, dimensions),
        ) {
            None => None,
            Some((multiplicands, end)) => Some(
                (
                    LookupView {
                        lookup_type: VorbisSetupCodebookLookupType::of(bits_value(data, at, 4)),
                        minimum_value: Some(unpacked(bits_value(data, at + 4, 32) as u32)),
                        delta_value: Some(unpacked(bits_value(data, at + 36, 32) as u32)),
                        value_bits: Some(value_bits as u8),
                        sequence_p: Some(bits_value(data, at + 72, 1) == 1),
                        multiplicands: Some(multiplicands),
                    },
                    end,
                ),
            ),
        }
    }
}

/// A codebook: the three bytes "BCV", its dimensions, the number of its
/// entries, the codeword lengths of the entries, and its lookup table.
pub open spec fn codebook_at(data: Seq<u8>, at: nat) -> Read<CodebookView> {
    if !within(data, at, 64) {
        None
    } else if bits_value(data, at, 8) != 0x42 || bits_value(data, at + 8, 8) != 0x43 || bits_value(
        data,
        at + 16,
        8,
    ) != 0x56 {
        None
    } else {
        let dimensions = bits_value(data, at + 24, 16);
        let entries = bits_value(data, at + 40, 24);
        match lengths_at(data, at + 64, entries) {
            None => None,
            Some((codeword_lengths, lookup_start)) => match lookup_at(
                data,
                lookup_start,
                entries,
                dimensions,
            ) {
                None => None,
                Some((lookup, end)) => Some(
                    (
                        CodebookView {
                            dimensions: dimensions as u16,
                            entries: entries as u32,
                            codeword_lengths,
                            lookup_type: lookup.lookup_type,
                            minimum_value: lookup.minimum_value,
                            delta_value: lookup.delta_value,
                            value_bits: lookup.value_bits,
                            sequence_p: lookup.sequence_p,
                            multiplicands: lookup.multiplicands,
                        },
                        end,
                    ),
                ),
            },
        }
    }
}

/// The reading of codebooks, one behind the other.
pub open spec fn codebook_part(data: Seq<u8>) -> spec_fn(nat) -> Read<CodebookView> {
    |at: nat| codebook_at(data, at)
}

/// Appends `count` times the same length.
fn push_run(lengths: &mut Vec<u8>, length: u8, count: u32)
    ensures
        final(lengths)@ == old(lengths)@ + run(length, count as nat),
{
    let mut i: u32 = 0;
    proof {
        assert(lengths@ =~= old(lengths)@ + run(length, 0));
    }
    while i < count
        invariant
            i <= count,
            lengths@ == old(lengths)@ + run(length, i as nat),
        decreases count - i,
    {
        lengths.push(length);
        i += 1;
        proof {
            assert(lengths@ =~= old(lengths)@ + run(length, i as nat));
        }
    }
}

/// Reads the codeword lengths of an ordered codebook.
fn read_ordered_lengths(reader: &mut BitStreamReader, entries: u32, first_length: u8) -> (result:
    Result<Vec<u8>, VorbisFormatError>)
    requires
        old(reader).addressable(),
    ensures
        final(reader).data == old(reader).data,
        result is Ok <==> ordered_from(
            old(reader).data@,
            old(reader).cursor as nat,
            entries as nat,
            0,
            first_length as nat,
            Seq::empty(),
        ) is Some,
        result is Ok ==> ordered_from(
            old(reader).data@,
            old(reader).cursor as nat,
            entries as nat,
            0,
            first_length as nat,
            Seq::empty(),
        ) == Some((result->Ok_0@, final(reader).cursor as nat)),
{
    let ghost data = reader.data@;
    let ghost all = ordered_from(
        data,
        reader.cursor as nat,
        entries as nat,
        0,
        first_length as nat,
        Seq::empty(),
    );
    let ghost mut exact_length: nat = first_length as nat;
    let mut lengths: Vec<u8> = Vec::new();
    let mut current_entry: u32 = 0;
    let mut current_length: u16 = first_length as u16;
    while current_entry < entries
        invariant
            current_entry <= entries,
            reader.addressable(),
            reader.data == old(reader).data,
            data == reader.data@,
            current_length <= 256,
            current_length == if exact_length <= 256 {
                exact_length
            } else {
                256
            },
            all == ordered_from(
                data,
                old(reader).cursor as nat,
                entries as nat,
                0,
                first_length as nat,
                Seq::empty(),
            ),
            all == ordered_from(
                data,
                reader.cursor as nat,
                entries as nat,
                current_entry as nat,
                exact_length,
                lengths@,
            ),
        decreases 8 * data.len() - reader.cursor,
    {
        let width = ilog(entries - current_entry) as usize;
        if !reader.has_bits(width) {
            return Err(incomplete_setup());
        }
        let number = reader.read_uint_n(width);
        if number > entries - current_entry {
            return Err(VorbisFormatError("Invalid codebook: too many codewords".to_string()));
        }
        if number > 0 && current_length > 255 {
            return Err(VorbisFormatError("Invalid codebook: codeword too long".to_string()));
        }
        proof {
            if number == 0 {
                assert(lengths@ + run(exact_length as u8, 0) =~= lengths@);
            }
        }
        if number > 0 {
            push_run(&mut lengths, current_length as u8, number);
        }
        current_entry += number;
        if current_length <= 255 {
            current_length += 1;
        }
        proof {
            exact_length = exact_length + 1;
        }
    }
    Ok(lengths)
}

/// Reads the codeword lengths of a codebook that is not ordered.
fn read_lengths(reader: &mut BitStreamReader, entries: u32, sparse: bool) -> (result: Result<
    Vec<u8>,
    VorbisFormatError,
>)
    requires
        old(reader).addressable(),
    ensures
        final(reader).data == old(reader).data,
        result is Ok <==> repeat(
            length_part(old(reader).data@, sparse),
            old(reader).cursor as nat,
            entries as nat,
        ) is Some,
        result is Ok ==> repeat(
            length_part(old(reader).data@, sparse),
            old(reader).cursor as nat,
            entries as nat,
        ) == Some((result->Ok_0@, final(reader).cursor as nat)),
{
    let ghost data = reader.data@;
    let ghost part = length_part(data, sparse);
    let ghost all = repeat(part, reader.cursor as nat, entries as nat);
    let mut lengths: Vec<u8> = Vec::new();
    let mut i: u32 = 0;
    while i < entries
        invariant
            i <= entries,
            reader.addressable(),
            reader.data == old(reader).data,
            data == reader.data@,
            part == length_part(data, sparse),
            all == repeat(part, old(reader).cursor as nat, entries as nat),
            all == repeat_from(part, reader.cursor as nat, (entries - i) as nat, lengths@),
        decreases entries - i,
    {
        if sparse {
            if !reader.has_bits(1) {
                return Err(incomplete_setup());
            }
            let flag = reader.read_bool();
            if flag {
                if !reader.has_bits(5) {
                    return Err(incomplete_setup());
                }
                let length = reader.read_uint5() + 1;
                lengths.push(length);
            } else {
                lengths.push(0);
            }
        } else {
            if !reader.has_bits(5) {
                return Err(incomplete_setup());
            }
            let length = reader.read_uint5() + 1;
            lengths.push(length);
        }
        i += 1;
    }
    Ok(lengths)
}

/// Reads the codeword lengths of a codebook.
fn read_codeword_lengths(reader: &mut BitStreamReader, entries: u32) -> (result: Result<
    Vec<u8>,
    VorbisFormatError,
>)
    requires
        old(reader).addressable(),
    ensures
        final(reader).data == old(reader).data,
        result is Ok <==> lengths_at(old(reader).data@, old(reader).cursor as nat, entries as nat)
            is Some,
        result is Ok ==> lengths_at(old(reader).data@, old(reader).cursor as nat, entries as nat)
            == Some((result->Ok_0@, final(reader).cursor as nat)),
{
    if !reader.has_bits(1) {
        return Err(incomplete_setup());
    }
    let ordered = reader.read_bool();
    if ordered {
        if !reader.has_bits(5) {
            return Err(incomplete_setup());
        }
        let first_length = reader.read_uint5() + 1;
        read_ordered_lengths(reader, entries, first_length)
    } else {
        if !reader.has_bits(1) {
            return Err(incomplete_setup());
        }
        let sparse = reader.read_bool();
        read_lengths(reader, entries, sparse)
    }
}

/// Reads `count` numbers of `width` bits each.
fn read_u32_list(reader: &mut BitStreamReader, count: u64, width: usize) -> (result: Result<
    Vec<u32>,
    VorbisFormatError,
>)
    requires
        old(reader).addressable(),
        width <= 32,
    ensures
        final(reader).data == old(reader).data,
        result is Ok <==> repeat(
            u32_part(old(reader).data@, width as nat),
            old(reader).cursor as nat,
            count as nat,
        ) is Some,
        result is Ok ==> repeat(
            u32_part(old(reader).data@, width as nat),
            old(reader).cursor as nat,
            count as nat,
        ) == Some((result->Ok_0@, final(reader).cursor as nat)),
{
    let ghost data = reader.data@;
    let ghost part = u32_part(data, width as nat);
    let ghost all = repeat(part, reader.cursor as nat, count as nat);
    let mut values: Vec<u32> = Vec::new();
    let mut i: u64 = 0;
    while i < count
        invariant
            i <= count,
            width <= 32,
            reader.addressable(),
            reader.data == old(reader).data,
            data == reader.data@,
            part == u32_part(data, width as nat),
            all == repeat(part, old(reader).cursor as nat, count as nat),
            all == repeat_from(part, reader.cursor as nat, (count - i) as nat, values@),
        decreases count - i,
    {
        if !reader.has_bits(width) {
            return Err(incomplete_setup());
        }
        let value = reader.read_uint_n(width);
        values.push(value);
        i += 1;
    }
    Ok(values)
}

/// The lookup table of a codebook as it is read.
pub struct LookupParts {
    pub lookup_type: VorbisSetupCodebookLookupType,
    pub minimum_value: Option<VorbisFloat>,
    pub delta_value: Option<VorbisFloat>,
    pub value_bits: Option<u8>,
    pub sequence_p: Option<bool>,
    pub multiplicands: Option<Vec<u32>>,
}

impl View for LookupParts {
    type V = LookupView;

    open spec fn view(&self) -> LookupView {
        LookupView {
            lookup_type: self.lookup_type,
            minimum_value: self.minimum_value,
            delta_value: self.delta_value,
            value_bits: self.value_bits,
            sequence_p: self.sequence_p,
            multiplicands: match self.multiplicands {
                Some(values) => Some(values@),
                None => None,
            },
        }
    }
}

/// Reads the lookup table of a codebook.
fn read_lookup(reader: &mut BitStreamReader, entries: u32, dimensions: u16) -> (result: Result<
    LookupParts,
    VorbisFormatError,
>)
    requires
        old(reader).addressable(),
        entries < 0x100_0000,
    ensures
        final(reader).data == old(reader).data,
        result is Ok <==> lookup_at(
            old(reader).data@,
            old(reader).cursor as nat,
            entries as nat,
            dimensions as nat,
        ) is Some,
        result is Ok ==> lookup_at(
            old(reader).data@,
            old(reader).cursor as nat,
            entries as nat,
            dimensions as nat,
        ) == Some((result->Ok_0@, final(reader).cursor as nat)),
{
    if !reader.has_bits(4) {
        return Err(incomplete_setup());
    }
    let lookup_number = reader.read_uint4();
    if lookup_number > 2 {
        return Err(VorbisFormatError("Unsupported lookup type".to_string()));
    }
    let lookup_type = VorbisSetupCodebookLookupType::from(lookup_number);
    if lookup_number == 0 {
        return Ok(
            LookupParts {
                lookup_type,
                minimum_value: None,
                delta_value: None,
                value_bits: None,
                sequence_p: None,
                multiplicands: None,
            },
        );
    }
    if !reader.has_bits(69) {
        return Err(incomplete_setup());
    }
    let minimum_value = float32_unpack(reader.read_uint32());
    let delta_value = float32_unpack(reader.read_uint32());
    let value_bits = reader.read_uint4() + 1;
    let sequence_p = reader.read_bool();
    let lookup_values: u64 = if lookup_number == 1 {
        lookup1_values(entries, dimensions as u32) as u64
    } else {
        proof {
            assert(entries * dimensions <= 0x100_0000 * 0x1_0000) by (nonlinear_arith)
                requires
                    entries <= 0x100_0000,
                    dimensions <= 0x1_0000,
            ;
        }
        (entries as u64) * (dimensions as u64)
    };
    let multiplicands = read_u32_list(reader, lookup_values, value_bits as usize)?;
    Ok(
        LookupParts {
            lookup_type,
            minimum_value: Some(minimum_value),
            delta_value: Some(delta_value),
            value_bits: Some(value_bits),
            sequence_p: Some(sequence_p),
            multiplicands: Some(multiplicands),
        },
    )
}

impl OggVorbisPage {
    /// Reads a codebook. Fails when the data end before the codebook
    /// does, when it does not start with "BCV", when a run of an ordered
    /// codebook is longer than the entries still to come or has a length
    /// above 255, and when the lookup type is above 2.
    pub fn parse_setup_codebook(reader: &mut BitStreamReader) -> (result: Result<
        IVorbisSetupCodebook,
        VorbisFormatError,
    >)
        requires
            old(reader).addressable(),
        ensures
            final(reader).data == old(reader).data,
            result is Ok <==> codebook_at(old(reader).data@, old(reader).cursor as nat) is Some,
            result is Ok ==> codebook_at(old(reader).data@, old(reader).cursor as nat) == Some(
                (result->Ok_0@, final(reader).cursor as nat),
            ),
    {
        if !reader.has_bits(64) {
            return Err(incomplete_setup());
        }
        let first = reader.read_uint8();
        let second = reader.read_uint8();
        let third = reader.read_uint8();
        if first != 0x42 || second != 0x43 || third != 0x56 {
            return Err(VorbisFormatError("Invalid codebook magic string".to_string()));
        }
        let dimensions = reader.read_uint16();
        let entries = reader.read_uint24();
        let codeword_lengths = read_codeword_lengths(reader, entries)?;
        let lookup = read_lookup(reader, entries, dimensions)?;
        Ok(
            IVorbisSetupCodebook {
                dimensions,
                entries,
                codeword_lengths,
                lookup_type: lookup.lookup_type,
                minimum_value: lookup.minimum_value,
                delta_value: lookup.delta_value,
                value_bits: lookup.value_bits,
                sequence_p: lookup.sequence_p,
                multiplicands: lookup.multiplicands,
            },
        )
    }
}

} // verus!
