//! The mappings of a Vorbis setup header.

use crate::bit_stream::{bits_value, lemma_bits_value_bound, BitStreamReader};
use crate::ogg_vorbis_page::{OggVorbisPage, VorbisFormatError};
use crate::vorbis_math::{bit_width, ilog, lemma_bit_width_bound};
use crate::vorbis_setup::{
    incomplete_setup, repeat, repeat_from, within, IVorbisMapping, MappingView, Read,
};
use vstd::arithmetic::power2::lemma2_to64;
use vstd::prelude::*;

verus! {

/// The first of each of a list of pairs.
pub open spec fn firsts(pairs: Seq<(u8, u8)>) -> Seq<u8> {
    Seq::new(pairs.len(), |i: int| pairs[i].0)
}

/// The second of each of a list of pairs.
pub open spec fn seconds(pairs: Seq<(u8, u8)>) -> Seq<u8> {
    Seq::new(pairs.len(), |i: int| pairs[i].1)
}

/// One more pair adds its two sides to the sides of the others.
pub proof fn lemma_pairs_push(pairs: Seq<(u8, u8)>, pair: (u8, u8))
    ensures
        firsts(pairs.push(pair)) == firsts(pairs).push(pair.0),
        seconds(pairs.push(pair)) == seconds(pairs).push(pair.1),
{
    assert(firsts(pairs.push(pair)) =~= firsts(pairs).push(pair.0));
    assert(seconds(pairs.push(pair)) =~= seconds(pairs).push(pair.1));
}

/// The number of bits of a channel number in a coupling step.
pub open spec fn coupling_width(channels: nat) -> nat {
    if channels == 0 {
        0
    } else {
        bit_width((channels - 1) as nat)
    }
}

/// A coupling step: the numbers of two channels of the stream, which
/// must differ.
pub open spec fn coupling_at(data: Seq<u8>, at: nat, width: nat, channels: nat) -> Read<(u8, u8)> {
    if !within(data, at, 2 * width) {
        None
    } else {
        let magnitude = bits_value(data, at, width);
        let angle = bits_value(data, at + width, width);
        if magnitude == angle || magnitude >= channels || angle >= channels {
            None
        } else {
            Some(((magnitude as u8, angle as u8), at + 2 * width))
        }
    }
}

/// The reading of coupling steps, one behind the other.
pub open spec fn coupling_part(data: Seq<u8>, width: nat, channels: nat) -> spec_fn(nat) -> Read<
    (u8, u8),
> {
    |at: nat| coupling_at(data, at, width, channels)
}

/// The coupling steps of a mapping: a flag, and if it is set the number
/// of steps less one and the steps.
pub open spec fn couplings_at(data: Seq<u8>, at: nat, channels: nat) -> Read<Seq<(u8, u8)>> {
    if !within(data, at, 1) {
        None
    } else if bits_value(data, at, 1) == 1 {
        if !within(data, at + 1, 8) {
            None
        } else {
            repeat(
                coupling_part(data, coupling_width(channels), channels),
                at + 9,
                bits_value(data, at + 1, 8) + 1,
            )
        }
    } else {
        Some((Seq::empty(), at + 1))
    }
}

/// The submap of a channel: four bits that name one of the submaps.
pub open spec fn mux_at(data: Seq<u8>, at: nat, submaps: nat) -> Read<u8> {
    if within(data, at, 4) && bits_value(data, at, 4) < submaps {
        Some((bits_value(data, at, 4) as u8, at + 4))
    } else {
        None
    }
}

/// The reading of the submaps of channels, one behind the other.
pub open spec fn mux_part(data: Seq<u8>, submaps: nat) -> spec_fn(nat) -> Read<u8> {
    |at: nat| mux_at(data, at, submaps)
}

/// A submap: eight bits that say nothing, the number of a floor and the
/// number of a residue.
pub open spec fn submap_at(data: Seq<u8>, at: nat, floors: nat, residues: nat) -> Read<(u8, u8)> {
    if !within(data, at, 24) {
        None
    } else if bits_value(data, at + 8, 8) >= floors || bits_value(data, at + 16, 8) >= residues {
        None
    } else {
        Some(((bits_value(data, at + 8, 8) as u8, bits_value(data, at + 16, 8) as u8), at + 24))
    }
}

/// The reading of submaps, one behind the other.
pub open spec fn submap_part(data: Seq<u8>, floors: nat, residues: nat) -> spec_fn(nat) -> Read<
    (u8, u8),
> {
    |at: nat| submap_at(data, at, floors, residues)
}

/// The submaps of the channels of a mapping: none where the mapping has
/// one submap only.
pub open spec fn muxes_at(data: Seq<u8>, at: nat, submaps: nat, channels: nat) -> Read<Seq<u8>> {
    if submaps > 1 {
        repeat(mux_part(data, submaps), at, channels)
    } else {
        Some((Seq::empty(), at))
    }
}

/// A mapping: its type, which must be zero, the number of its submaps,
/// its coupling steps, two bits that must be zero, the submap of each
/// channel, and the floor and the residue of each submap.
pub open spec fn mapping_at(
    data: Seq<u8>,
    at: nat,
    channels: nat,
    floors: nat,
    residues: nat,
) -> Read<MappingView> {
    if !within(data, at, 17) {
        None
    } else if bits_value(data, at, 16) != 0 {
        None
    } else if bits_value(data, at + 16, 1) == 1 && !within(data, at + 17, 4) {
        None
    } else {
        let several = bits_value(data, at + 16, 1) == 1;
        let submaps = if several {
            bits_value(data, at + 17, 4) + 1
        } else {
            1
        };
        let coupling_start = if several {
            at + 21
        } else {
            at + 17
        };
        match couplings_at(data, coupling_start, channels) {
            None => None,
            Some((couplings, reserved)) => {
                if !within(data, reserved, 2) || bits_value(data, reserved, 2) != 0 {
                    None
                } else {
                    match muxes_at(data, reserved + 2, submaps, channels) {
                        None => None,
                        Some((mux, submaps_start)) => match repeat(
                            submap_part(data, floors, residues),
                            submaps_start,
                            submaps,
                        ) {
                            None => None,
                            Some((pairs, end)) => Some(
                                (
                                    MappingView {
                                        submaps: submaps as u8,
                                        coupling_steps: couplings.len() as u16,
                                        magnitude: firsts(couplings),
                                        angle: seconds(couplings),
                                        mux,
                                        submap_floors: firsts(pairs),
                                        submap_residues: seconds(pairs),
                                    },
                                    end,
                                ),
                            ),
                        },
                    }
                }
            },
        }
    }
}

/// Two lists that are read together, pair by pair.
pub struct PairLists {
    pub first: Vec<u8>,
    pub second: Vec<u8>,
}

impl PairLists {
    /// The lists hold the two sides of these pairs.
    pub open spec fn holds(&self, pairs: Seq<(u8, u8)>) -> bool {
        self.first@ == firsts(pairs) && self.second@ == seconds(pairs)
    }
}

/// Reads the coupling steps of a mapping.
fn read_couplings(reader: &mut BitStreamReader, audio_channels: u8) -> (result: Result<
    PairLists,
    VorbisFormatError,
>)
    requires
        old(reader).addressable(),
    ensures
        final(reader).data == old(reader).data,
        result is Ok <==> couplings_at(
            old(reader).data@,
            old(reader).cursor as nat,
            audio_channels as nat,
        ) is Some,
        result is Ok ==> {
            let read = couplings_at(
                old(reader).data@,
                old(reader).cursor as nat,
                audio_channels as nat,
            );
            &&& read->Some_0.1 == final(reader).cursor
            &&& read->Some_0.0.len() <= 256
            &&& result->Ok_0.holds(read->Some_0.0)
        },
{
    let ghost data = reader.data@;
    let mut lists = PairLists { first: Vec::new(), second: Vec::new() };
    proof {
        assert(firsts(Seq::<(u8, u8)>::empty()) =~= Seq::<u8>::empty());
        assert(seconds(Seq::<(u8, u8)>::empty()) =~= Seq::<u8>::empty());
    }
    if !reader.has_bits(1) {
        return Err(incomplete_setup());
    }
    let coupling_flag = reader.read_bool();
    if !coupling_flag {
        return Ok(lists);
    }
    if !reader.has_bits(8) {
        return Err(incomplete_setup());
    }
    let coupling_steps: u16 = reader.read_uint8() as u16 + 1;
    let coupling_bits: usize = if audio_channels == 0 {
        0
    } else {
        ilog((audio_channels - 1) as u32) as usize
    };
    proof {
        lemma2_to64();
        if audio_channels > 0 {
            lemma_bit_width_bound((audio_channels - 1) as nat, 8);
        }
    }
    let ghost start = reader.cursor as nat;
    let ghost part = coupling_part(data, coupling_bits as nat, audio_channels as nat);
    let ghost all = repeat(part, start, coupling_steps as nat);
    let ghost mut pairs: Seq<(u8, u8)> = Seq::empty();
    let mut i: u16 = 0;
    while i < coupling_steps
        invariant
            i <= coupling_steps <= 256,
            coupling_bits <= 8,
            reader.addressable(),
            reader.data == old(reader).data,
            data == reader.data@,
            part == coupling_part(data, coupling_bits as nat, audio_channels as nat),
            all == couplings_at(data, old(reader).cursor as nat, audio_channels as nat),
            all == repeat_from(part, reader.cursor as nat, (coupling_steps - i) as nat, pairs),
            pairs.len() == i,
            lists.holds(pairs),
        decreases coupling_steps - i,
    {
        if !reader.has_bits(2 * coupling_bits) {
            return Err(incomplete_setup());
        }
        proof {
            lemma2_to64();
            lemma_bits_value_bound(data, reader.cursor as nat, coupling_bits as nat);
            lemma_bits_value_bound(
                data,
                (reader.cursor + coupling_bits) as nat,
                coupling_bits as nat,
            );
            if coupling_bits < 8 {
                vstd::arithmetic::power2::lemma_pow2_strictly_increases(coupling_bits as nat, 8);
            }
        }
        let magnitude_val = reader.read_uint_n(coupling_bits) as u8;
        let angle_val = reader.read_uint_n(coupling_bits) as u8;
        if magnitude_val == angle_val || magnitude_val >= audio_channels || angle_val
            >= audio_channels {
            return Err(VorbisFormatError("Invalid coupling channel numbers".to_string()));
        }
        proof {
            lemma_pairs_push(pairs, (magnitude_val, angle_val));
            pairs = pairs.push((magnitude_val, angle_val));
        }
        lists.first.push(magnitude_val);
        lists.second.push(angle_val);
        i += 1;
    }
    Ok(lists)
}

/// Reads the submap of each channel.
fn read_muxes(reader: &mut BitStreamReader, submaps: u8, audio_channels: u8) -> (result: Result<
    Vec<u8>,
    VorbisFormatError,
>)
    requires
        old(reader).addressable(),
    ensures
        final(reader).data == old(reader).data,
        result is Ok <==> muxes_at(
            old(reader).data@,
            old(reader).cursor as nat,
            submaps as nat,
            audio_channels as nat,
        ) is Some,
        result is Ok ==> muxes_at(
            old(reader).data@,
            old(reader).cursor as nat,
            submaps as nat,
            audio_channels as nat,
        ) == Some((result->Ok_0@, final(reader).cursor as nat)),
{
    let ghost data = reader.data@;
    let ghost part = mux_part(data, submaps as nat);
    let ghost all = repeat(part, reader.cursor as nat, audio_channels as nat);
    let mut mux: Vec<u8> = Vec::new();
    if submaps > 1 {
        let mut i: u8 = 0;
        while i < audio_channels
            invariant
                i <= audio_channels,
                reader.addressable(),
                reader.data == old(reader).data,
                data == reader.data@,
                part == mux_part(data, submaps as nat),
                all == muxes_at(
                    data,
                    old(reader).cursor as nat,
                    submaps as nat,
                    audio_channels as nat,
                ),
                all == repeat_from(part, reader.cursor as nat, (audio_channels - i) as nat, mux@),
            decreases audio_channels - i,
        {
            if !reader.has_bits(4) {
                return Err(incomplete_setup());
            }
            let mux_value = reader.read_uint4();
            if mux_value >= submaps {
                return Err(VorbisFormatError("Invalid multiplex value".to_string()));
            }
            mux.push(mux_value);
            i += 1;
        }
    }
    Ok(mux)
}

/// Reads the floor and the residue of each submap.
fn read_submaps(reader: &mut BitStreamReader, submaps: u8, floor_count: u8, residue_count: u8) -> (result:
    Result<PairLists, VorbisFormatError>)
    requires
        old(reader).addressable(),
    ensures
        final(reader).data == old(reader).data,
        result is Ok <==> repeat(
            submap_part(old(reader).data@, floor_count as nat, residue_count as nat),
            old(reader).cursor as nat,
            submaps as nat,
        ) is Some,
        result is Ok ==> {
            let read = repeat(
                submap_part(old(reader).data@, floor_count as nat, residue_count as nat),
                old(reader).cursor as nat,
                submaps as nat,
            );
            &&& read->Some_0.1 == final(reader).cursor
            &&& result->Ok_0.holds(read->Some_0.0)
        },
{
    let ghost data = reader.data@;
    let ghost part = submap_part(data, floor_count as nat, residue_count as nat);
    let ghost all = repeat(part, reader.cursor as nat, submaps as nat);
    let ghost mut pairs: Seq<(u8, u8)> = Seq::empty();
    let mut lists = PairLists { first: Vec::new(), second: Vec::new() };
    proof {
        assert(firsts(pairs) =~= Seq::<u8>::empty());
        assert(seconds(pairs) =~= Seq::<u8>::empty());
    }
    let mut i: u8 = 0;
    while i < submaps
        invariant
            i <= submaps,
            reader.addressable(),
            reader.data == old(reader).data,
            data == reader.data@,
            part == submap_part(data, floor_count as nat, residue_count as nat),
            all == repeat(part, old(reader).cursor as nat, submaps as nat),
            all == repeat_from(part, reader.cursor as nat, (submaps - i) as nat, pairs),
            lists.holds(pairs),
        decreases submaps - i,
    {
        if !reader.has_bits(24) {
            return Err(incomplete_setup());
        }
        reader.read_uint8();
        let floor_number = reader.read_uint8();
        if floor_number >= floor_count {
            return Err(VorbisFormatError("Invalid floor number".to_string()));
        }
        let residue_number = reader.read_uint8();
        if residue_number >= residue_count {
            return Err(VorbisFormatError("Invalid residue number".to_string()));
        }
        proof {
            lemma_pairs_push(pairs, (floor_number, residue_number));
            pairs = pairs.push((floor_number, residue_number));
        }
        lists.first.push(floor_number);
        lists.second.push(residue_number);
        i += 1;
    }
    Ok(lists)
}

impl OggVorbisPage {
    /// Reads a mapping. Fails when the data end before the mapping does,
    /// when its type or its reserved bits are not zero, when a coupling
    /// step names a channel that the stream does not have or the same
    /// channel twice, when a channel names a submap that the mapping does
    /// not have, and when a submap names a floor or a residue that the
    /// setup does not have.
    pub fn parse_mapping(
        reader: &mut BitStreamReader,
        audio_channels: u8,
        floor_count: u8,
        residue_count: u8,
    ) -> (result: Result<IVorbisMapping, VorbisFormatError>)
        requires
            old(reader).addressable(),
        ensures
            final(reader).data == old(reader).data,
            result is Ok <==> mapping_at(
                old(reader).data@,
                old(reader).cursor as nat,
                audio_channels as nat,
                floor_count as nat,
                residue_count as nat,
            ) is Some,
            result is Ok ==> mapping_at(
                old(reader).data@,
                old(reader).cursor as nat,
                audio_channels as nat,
                floor_count as nat,
                residue_count as nat,
            ) == Some((result->Ok_0@, final(reader).cursor as nat)),
    {
        if !reader.has_bits(17) {
            return Err(incomplete_setup());
        }
        let mapping_type = reader.read_uint16();
        if mapping_type != 0 {
            return Err(VorbisFormatError("Unsupported mapping type".to_string()));
        }
        let submaps_flag = reader.read_bool();
        let submaps = if submaps_flag {
            if !reader.has_bits(4) {
                return Err(incomplete_setup());
            }
            reader.read_uint4() + 1
        } else {
            1
        };
        let couplings = read_couplings(reader, audio_channels)?;
        if !reader.has_bits(2) {
            return Err(incomplete_setup());
        }
        let reserved = reader.read_uint2();
        if reserved != 0 {
            return Err(VorbisFormatError("Invalid reserved field in mapping".to_string()));
        }
        let mux = read_muxes(reader, submaps, audio_channels)?;
        let pairs = read_submaps(reader, submaps, floor_count, residue_count)?;
        let coupling_steps = couplings.first.len() as u16;
        Ok(
            IVorbisMapping {
                submaps,
                coupling_steps,
                magnitude: couplings.first,
                angle: couplings.second,
                mux,
                submap_floors: pairs.first,
                submap_residues: pairs.second,
            },
        )
    }
}

} // verus!
