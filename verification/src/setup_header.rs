//! The setup header of a Vorbis stream, read from its packet: codebooks,
//! time domain transforms, floors, residues, mappings and modes, each list
//! behind the number of its parts less one, and the framing bit.

use crate::bit_stream::{bits_value, BitStreamReader};
use crate::ogg_page::lemma_packet_len;
use crate::ogg_vorbis_page::{
    bytes_are_header, is_header_of, OggVorbisPage, VorbisFormatError, VorbisHeaderType,
};
use crate::setup_codebook::codebook_part;
use crate::setup_floor::{floor0_at, floor1_at};
use crate::setup_mapping::mapping_at;
use crate::setup_residue::residue_at;
use crate::vorbis_setup::{
    incomplete_setup, lemma_views_push, mode_part, repeat, repeat_from, views, within,
    CodebookView, FloorView, IVorbisFloor, IVorbisMapping, IVorbisMode, IVorbisResidue,
    IVorbisSetupCodebook, IVorbisSetupHeader, MappingView, Read, ResidueView, SetupView,
};
use vstd::prelude::*;

verus! {

/// A time domain transform: sixteen bits that must be zero.
pub open spec fn time_at(data: Seq<u8>, at: nat) -> Read<u16> {
    if within(data, at, 16) && bits_value(data, at, 16) == 0 {
        Some((0u16, at + 16))
    } else {
        None
    }
}

/// The reading of time domain transforms, one behind the other.
pub open spec fn time_part(data: Seq<u8>) -> spec_fn(nat) -> Read<u16> {
    |at: nat| time_at(data, at)
}

/// A floor: its type, which is 0 or 1, and the floor of that type.
pub open spec fn floor_at(data: Seq<u8>, at: nat, codebook_count: nat) -> Read<FloorView> {
    if !within(data, at, 16) {
        None
    } else if bits_value(data, at, 16) == 0 {
        match floor0_at(data, at + 16, codebook_count) {
            Some((floor, end)) => Some((FloorView::Type0(floor), end)),
            None => None,
        }
    } else if bits_value(data, at, 16) == 1 {
        match floor1_at(data, at + 16) {
            Some((floor, end)) => Some((FloorView::Type1(floor), end)),
            None => None,
        }
    } else {
        None
    }
}

/// The reading of floors, one behind the other.
pub open spec fn floor_part(data: Seq<u8>, codebook_count: nat) -> spec_fn(nat) -> Read<FloorView> {
    |at: nat| floor_at(data, at, codebook_count)
}

/// The reading of residues, one behind the other.
pub open spec fn residue_part(data: Seq<u8>, codebook_count: nat) -> spec_fn(nat) -> Read<
    ResidueView,
> {
    |at: nat| residue_at(data, at, codebook_count)
}

/// The reading of mappings, one behind the other.
pub open spec fn mapping_part(data: Seq<u8>, channels: nat, floors: nat, residues: nat) -> spec_fn(
    nat,
) -> Read<MappingView> {
    |at: nat| mapping_at(data, at, channels, floors, residues)
}

/// The number of parts of a list: `width` bits that hold it less one.
pub open spec fn count_at(data: Seq<u8>, at: nat, width: nat) -> nat {
    bits_value(data, at, width) + 1
}

/// A list of parts behind the number of its parts less one.
pub open spec fn counted<T>(data: Seq<u8>, at: nat, width: nat, part: spec_fn(nat) -> Read<T>) -> Read<
    Seq<T>,
> {
    if !within(data, at, width) {
        None
    } else {
        repeat(part, at + width, count_at(data, at, width))
    }
}

/// What the modes and the framing bit add to the parts read before them:
/// the whole setup header.
pub open spec fn modes_then(
    data: Seq<u8>,
    at: nat,
    codebooks: Seq<CodebookView>,
    floors: Seq<FloorView>,
    residues: Seq<ResidueView>,
    mappings: Seq<MappingView>,
) -> Option<SetupView> {
    match counted(data, at, 6, mode_part(data)) {
        None => None,
        Some((modes, end)) => {
            if within(data, end, 1) && bits_value(data, end, 1) == 1 {
                Some(SetupView { codebooks, floors, residues, mappings, modes, framing_bit: true })
            } else {
                None
            }
        },
    }
}

/// The setup header from its mappings on. A mapping may name the channels
/// of the stream, the floors and the residues read before.
pub open spec fn mappings_then(
    data: Seq<u8>,
    at: nat,
    channels: nat,
    codebooks: Seq<CodebookView>,
    floors: Seq<FloorView>,
    residues: Seq<ResidueView>,
) -> Option<SetupView> {
    match counted(data, at, 6, mapping_part(data, channels, floors.len(), residues.len())) {
        None => None,
        Some((mappings, next)) => modes_then(data, next, codebooks, floors, residues, mappings),
    }
}

/// The setup header from its residues on. A residue may name the
/// codebooks read before.
pub open spec fn residues_then(
    data: Seq<u8>,
    at: nat,
    channels: nat,
    codebooks: Seq<CodebookView>,
    floors: Seq<FloorView>,
) -> Option<SetupView> {
    match counted(data, at, 6, residue_part(data, codebooks.len())) {
        None => None,
        Some((residues, next)) => mappings_then(data, next, channels, codebooks, floors, residues),
    }
}

/// The setup header from its floors on. A floor may name the codebooks
/// read before.
pub open spec fn floors_then(
    data: Seq<u8>,
    at: nat,
    channels: nat,
    codebooks: Seq<CodebookView>,
) -> Option<SetupView> {
    match counted(data, at, 6, floor_part(data, codebooks.len())) {
        None => None,
        Some((floors, next)) => residues_then(data, next, channels, codebooks, floors),
    }
}

/// The setup header from its time domain transforms on.
pub open spec fn times_then(
    data: Seq<u8>,
    at: nat,
    channels: nat,
    codebooks: Seq<CodebookView>,
) -> Option<SetupView> {
    match counted(data, at, 6, time_part(data)) {
        None => None,
        Some((times, next)) => floors_then(data, next, channels, codebooks),
    }
}

/// The setup header that a packet holds for a stream of so many channels,
/// from the bit behind the seven bytes of the packet's start on; nothing
/// where a part is missing or not accepted, or the framing bit is not set.
pub open spec fn setup_of(data: Seq<u8>, channels: nat) -> Option<SetupView> {
    match counted(data, 56, 8, codebook_part(data)) {
        None => None,
        Some((codebooks, next)) => times_then(data, next, channels, codebooks),
    }
}

/// The packet is a whole setup packet that Vorbis accepts for a stream of
/// so many channels.
pub open spec fn is_setup(packet: Seq<u8>, channels: nat) -> bool {
    is_header_of(packet, VorbisHeaderType::Setup) && setup_of(packet, channels) is Some
}

/// Reads the codebooks of a setup header.
fn read_codebooks(reader: &mut BitStreamReader) -> (result: Result<
    Vec<IVorbisSetupCodebook>,
    VorbisFormatError,
>)
    requires
        old(reader).addressable(),
    ensures
        final(reader).data == old(reader).data,
        result is Ok <==> counted(
            old(reader).data@,
            old(reader).cursor as nat,
            8,
            codebook_part(old(reader).data@),
        ) is Some,
        result is Ok ==> counted(
            old(reader).data@,
            old(reader).cursor as nat,
            8,
            codebook_part(old(reader).data@),
        ) == Some((views(result->Ok_0@), final(reader).cursor as nat)),
        result is Ok ==> result->Ok_0@.len() <= 256,
{
    let ghost data = reader.data@;
    let ghost part = codebook_part(data);
    let ghost all = counted(data, reader.cursor as nat, 8, part);
    if !reader.has_bits(8) {
        return Err(incomplete_setup());
    }
    let count: u16 = reader.read_uint8() as u16 + 1;
    let mut codebooks: Vec<IVorbisSetupCodebook> = Vec::new();
    let mut i: u16 = 0;
    proof {
        assert(views(codebooks@) =~= Seq::<CodebookView>::empty());
    }
    while i < count
        invariant
            i <= count <= 256,
            codebooks@.len() == i,
            reader.addressable(),
            reader.data == old(reader).data,
            data == reader.data@,
            part == codebook_part(data),
            all == counted(data, old(reader).cursor as nat, 8, part),
            all == repeat_from(part, reader.cursor as nat, (count - i) as nat, views(codebooks@)),
        decreases count - i,
    {
        let codebook = match OggVorbisPage::parse_setup_codebook(reader) {
            Ok(codebook) => codebook,
            Err(e) => {
                return Err(e);
            },
        };
        proof {
            lemma_views_push(codebooks@, codebook);
        }
        codebooks.push(codebook);
        i += 1;
    }
    Ok(codebooks)
}

/// Reads the time domain transforms of a setup header.
fn read_times(reader: &mut BitStreamReader) -> (result: Result<(), VorbisFormatError>)
    requires
        old(reader).addressable(),
    ensures
        final(reader).data == old(reader).data,
        result is Ok <==> counted(
            old(reader).data@,
            old(reader).cursor as nat,
            6,
            time_part(old(reader).data@),
        ) is Some,
        result is Ok ==> counted(
            old(reader).data@,
            old(reader).cursor as nat,
            6,
            time_part(old(reader).data@),
        )->Some_0.1 == final(reader).cursor,
{
    let ghost data = reader.data@;
    let ghost part = time_part(data);
    let ghost all = counted(data, reader.cursor as nat, 6, part);
    if !reader.has_bits(6) {
        return Err(incomplete_setup());
    }
    let count = reader.read_uint6() + 1;
    let ghost mut times: Seq<u16> = Seq::empty();
    let mut i: u8 = 0;
    while i < count
        invariant
            i <= count,
            reader.addressable(),
            reader.data == old(reader).data,
            data == reader.data@,
            part == time_part(data),
            all == counted(data, old(reader).cursor as nat, 6, part),
            all == repeat_from(part, reader.cursor as nat, (count - i) as nat, times),
        decreases count - i,
    {
        if !reader.has_bits(16) {
            return Err(incomplete_setup());
        }
        let time_type = reader.read_uint16();
        if time_type != 0 {
            return Err(VorbisFormatError("Invalid time type".to_string()));
        }
        proof {
            times = times.push(0u16);
        }
        i += 1;
    }
    Ok(())
}

/// Reads a floor of a setup header.
fn read_floor(reader: &mut BitStreamReader, codebook_count: u16) -> (result: Result<
    IVorbisFloor,
    VorbisFormatError,
>)
    requires
        old(reader).addressable(),
    ensures
        final(reader).data == old(reader).data,
        result is Ok <==> floor_at(
            old(reader).data@,
            old(reader).cursor as nat,
            codebook_count as nat,
        ) is Some,
        result is Ok ==> floor_at(
            old(reader).data@,
            old(reader).cursor as nat,
            codebook_count as nat,
        ) == Some((result->Ok_0@, final(reader).cursor as nat)),
{
    if !reader.has_bits(16) {
        return Err(incomplete_setup());
    }
    let floor_type = reader.read_uint16();
    if floor_type == 0 {
        match OggVorbisPage::parse_floor_type0(reader, codebook_count) {
            Ok(floor) => Ok(IVorbisFloor::Type0(floor)),
            Err(e) => Err(e),
        }
    } else if floor_type == 1 {
        match OggVorbisPage::parse_floor_type1(reader) {
            Ok(floor) => Ok(IVorbisFloor::Type1(floor)),
            Err(e) => Err(e),
        }
    } else {
        Err(VorbisFormatError("Invalid floor type".to_string()))
    }
}

/// Reads the floors of a setup header.
fn read_floors(reader: &mut BitStreamReader, codebook_count: u16) -> (result: Result<
    Vec<IVorbisFloor>,
    VorbisFormatError,
>)
    requires
        old(reader).addressable(),
    ensures
        final(reader).data == old(reader).data,
        result is Ok <==> counted(
            old(reader).data@,
            old(reader).cursor as nat,
            6,
            floor_part(old(reader).data@, codebook_count as nat),
        ) is Some,
        result is Ok ==> counted(
            old(reader).data@,
            old(reader).cursor as nat,
            6,
            floor_part(old(reader).data@, codebook_count as nat),
        ) == Some((views(result->Ok_0@), final(reader).cursor as nat)),
        result is Ok ==> result->Ok_0@.len() <= 64,
{
    let ghost data = reader.data@;
    let ghost part = floor_part(data, codebook_count as nat);
    let ghost all = counted(data, reader.cursor as nat, 6, part);
    if !reader.has_bits(6) {
        return Err(incomplete_setup());
    }
    let count = reader.read_uint6() + 1;
    let mut floors: Vec<IVorbisFloor> = Vec::new();
    let mut i: u8 = 0;
    proof {
        assert(views(floors@) =~= Seq::<FloorView>::empty());
    }
    while i < count
        invariant
            i <= count <= 64,
            floors@.len() == i,
            reader.addressable(),
            reader.data == old(reader).data,
            data == reader.data@,
            part == floor_part(data, codebook_count as nat),
            all == counted(data, old(reader).cursor as nat, 6, part),
            all == repeat_from(part, reader.cursor as nat, (count - i) as nat, views(floors@)),
        decreases count - i,
    {
        let floor = match read_floor(reader, codebook_count) {
            Ok(floor) => floor,
            Err(e) => {
                return Err(e);
            },
        };
        proof {
            lemma_views_push(floors@, floor);
        }
        floors.push(floor);
        i += 1;
    }
    Ok(floors)
}

/// Reads the residues of a setup header.
fn read_residues(reader: &mut BitStreamReader, codebook_count: u16) -> (result: Result<
    Vec<IVorbisResidue>,
    VorbisFormatError,
>)
    requires
        old(reader).addressable(),
    ensures
        final(reader).data == old(reader).data,
        result is Ok <==> counted(
            old(reader).data@,
            old(reader).cursor as nat,
            6,
            residue_part(old(reader).data@, codebook_count as nat),
        ) is Some,
        result is Ok ==> counted(
            old(reader).data@,
            old(reader).cursor as nat,
            6,
            residue_part(old(reader).data@, codebook_count as nat),
        ) == Some((views(result->Ok_0@), final(reader).cursor as nat)),
        result is Ok ==> result->Ok_0@.len() <= 64,
{
    let ghost data = reader.data@;
    let ghost part = residue_part(data, codebook_count as nat);
    let ghost all = counted(data, reader.cursor as nat, 6, part);
    if !reader.has_bits(6) {
        return Err(incomplete_setup());
    }
    let count = reader.read_uint6() + 1;
    let mut residues: Vec<IVorbisResidue> = Vec::new();
    let mut i: u8 = 0;
    proof {
        assert(views(residues@) =~= Seq::<ResidueView>::empty());
    }
    while i < count
        invariant
            i <= count <= 64,
            residues@.len() == i,
            reader.addressable(),
            reader.data == old(reader).data,
            data == reader.data@,
            part == residue_part(data, codebook_count as nat),
            all == counted(data, old(reader).cursor as nat, 6, part),
            all == repeat_from(part, reader.cursor as nat, (count - i) as nat, views(residues@)),
        decreases count - i,
    {
        let residue = match OggVorbisPage::parse_residue(reader, codebook_count) {
            Ok(residue) => residue,
            Err(e) => {
                return Err(e);
            },
        };
        proof {
            lemma_views_push(residues@, residue);
        }
        residues.push(residue);
        i += 1;
    }
    Ok(residues)
}

/// Reads the mappings of a setup header.
fn read_mappings(
    reader: &mut BitStreamReader,
    audio_channels: u8,
    floor_count: u8,
    residue_count: u8,
) -> (result: Result<Vec<IVorbisMapping>, VorbisFormatError>)
    requires
        old(reader).addressable(),
    ensures
        final(reader).data == old(reader).data,
        result is Ok <==> counted(
            old(reader).data@,
            old(reader).cursor as nat,
            6,
            mapping_part(
                old(reader).data@,
                audio_channels as nat,
                floor_count as nat,
                residue_count as nat,
            ),
        ) is Some,
        result is Ok ==> counted(
            old(reader).data@,
            old(reader).cursor as nat,
            6,
            mapping_part(
                old(reader).data@,
                audio_channels as nat,
                floor_count as nat,
                residue_count as nat,
            ),
        ) == Some((views(result->Ok_0@), final(reader).cursor as nat)),
{
    let ghost data = reader.data@;
    let ghost part = mapping_part(
        data,
        audio_channels as nat,
        floor_count as nat,
        residue_count as nat,
    );
    let ghost all = counted(data, reader.cursor as nat, 6, part);
    if !reader.has_bits(6) {
        return Err(incomplete_setup());
    }
    let count = reader.read_uint6() + 1;
    let mut mappings: Vec<IVorbisMapping> = Vec::new();
    let mut i: u8 = 0;
    proof {
        assert(views(mappings@) =~= Seq::<MappingView>::empty());
    }
    while i < count
        invariant
            i <= count,
            reader.addressable(),
            reader.data == old(reader).data,
            data == reader.data@,
            part == mapping_part(
                data,
                audio_channels as nat,
                floor_count as nat,
                residue_count as nat,
            ),
            all == counted(data, old(reader).cursor as nat, 6, part),
            all == repeat_from(part, reader.cursor as nat, (count - i) as nat, views(mappings@)),
        decreases count - i,
    {
        let mapping = match OggVorbisPage::parse_mapping(
            reader,
            audio_channels,
            floor_count,
            residue_count,
        ) {
            Ok(mapping) => mapping,
            Err(e) => {
                return Err(e);
            },
        };
        proof {
            lemma_views_push(mappings@, mapping);
        }
        mappings.push(mapping);
        i += 1;
    }
    Ok(mappings)
}

/// Reads the modes of a setup header.
fn read_modes(reader: &mut BitStreamReader) -> (result: Result<Vec<IVorbisMode>, VorbisFormatError>)
    requires
        old(reader).addressable(),
    ensures
        final(reader).data == old(reader).data,
        result is Ok <==> counted(
            old(reader).data@,
            old(reader).cursor as nat,
            6,
            mode_part(old(reader).data@),
        ) is Some,
        result is Ok ==> counted(
            old(reader).data@,
            old(reader).cursor as nat,
            6,
            mode_part(old(reader).data@),
        ) == Some((result->Ok_0@, final(reader).cursor as nat)),
{
    let ghost data = reader.data@;
    let ghost part = mode_part(data);
    let ghost all = counted(data, reader.cursor as nat, 6, part);
    if !reader.has_bits(6) {
        return Err(incomplete_setup());
    }
    let count = reader.read_uint6() + 1;
    let mut modes: Vec<IVorbisMode> = Vec::new();
    let mut i: u8 = 0;
    while i < count
        invariant
            i <= count,
            reader.addressable(),
            reader.data == old(reader).data,
            data == reader.data@,
            part == mode_part(data),
            all == counted(data, old(reader).cursor as nat, 6, part),
            all == repeat_from(part, reader.cursor as nat, (count - i) as nat, modes@),
        decreases count - i,
    {
        let mode = match OggVorbisPage::parse_mode(reader) {
            Ok(mode) => mode,
            Err(e) => {
                return Err(e);
            },
        };
        modes.push(mode);
        i += 1;
    }
    Ok(modes)
}

/// Reads the modes and the framing bit, and puts the setup header
/// together.
fn finish_setup(
    reader: &mut BitStreamReader,
    codebooks: Vec<IVorbisSetupCodebook>,
    floors: Vec<IVorbisFloor>,
    residues: Vec<IVorbisResidue>,
    mappings: Vec<IVorbisMapping>,
) -> (result: Result<IVorbisSetupHeader, VorbisFormatError>)
    requires
        old(reader).addressable(),
    ensures
        result is Ok <==> modes_then(
            old(reader).data@,
            old(reader).cursor as nat,
            views(codebooks@),
            views(floors@),
            views(residues@),
            views(mappings@),
        ) is Some,
        result is Ok ==> Some(result->Ok_0@) == modes_then(
            old(reader).data@,
            old(reader).cursor as nat,
            views(codebooks@),
            views(floors@),
            views(residues@),
            views(mappings@),
        ),
{
    let modes = read_modes(reader)?;
    if !reader.has_bits(1) {
        return Err(incomplete_setup());
    }
    let framing_bit = reader.read_bool();
    if !framing_bit {
        return Err(VorbisFormatError("Framing bit must be nonzero".to_string()));
    }
    Ok(IVorbisSetupHeader { codebooks, floors, residues, mappings, modes, framing_bit })
}

/// Reads the setup header from its mappings on.
fn setup_from_mappings(
    reader: &mut BitStreamReader,
    audio_channels: u8,
    codebooks: Vec<IVorbisSetupCodebook>,
    floors: Vec<IVorbisFloor>,
    residues: Vec<IVorbisResidue>,
) -> (result: Result<IVorbisSetupHeader, VorbisFormatError>)
    requires
        old(reader).addressable(),
        floors@.len() <= 64,
        residues@.len() <= 64,
    ensures
        result is Ok <==> mappings_then(
            old(reader).data@,
            old(reader).cursor as nat,
            audio_channels as nat,
            views(codebooks@),
            views(floors@),
            views(residues@),
        ) is Some,
        result is Ok ==> Some(result->Ok_0@) == mappings_then(
            old(reader).data@,
            old(reader).cursor as nat,
            audio_channels as nat,
            views(codebooks@),
            views(floors@),
            views(residues@),
        ),
{
    let floor_count: u8 = floors.len() as u8;
    let residue_count: u8 = residues.len() as u8;
    let mappings = read_mappings(reader, audio_channels, floor_count, residue_count)?;
    finish_setup(reader, codebooks, floors, residues, mappings)
}

/// Reads the setup header from its residues on.
fn setup_from_residues(
    reader: &mut BitStreamReader,
    audio_channels: u8,
    codebooks: Vec<IVorbisSetupCodebook>,
    floors: Vec<IVorbisFloor>,
) -> (result: Result<IVorbisSetupHeader, VorbisFormatError>)
    requires
        old(reader).addressable(),
        codebooks@.len() <= 256,
        floors@.len() <= 64,
    ensures
        result is Ok <==> residues_then(
            old(reader).data@,
            old(reader).cursor as nat,
            audio_channels as nat,
            views(codebooks@),
            views(floors@),
        ) is Some,
        result is Ok ==> Some(result->Ok_0@) == residues_then(
            old(reader).data@,
            old(reader).cursor as nat,
            audio_channels as nat,
            views(codebooks@),
            views(floors@),
        ),
{
    let residues = read_residues(reader, codebooks.len() as u16)?;
    setup_from_mappings(reader, audio_channels, codebooks, floors, residues)
}

/// Reads the setup header from its time domain transforms on.
fn setup_from_times(
    reader: &mut BitStreamReader,
    audio_channels: u8,
    codebooks: Vec<IVorbisSetupCodebook>,
) -> (result: Result<IVorbisSetupHeader, VorbisFormatError>)
    requires
        old(reader).addressable(),
        codebooks@.len() <= 256,
    ensures
        result is Ok <==> times_then(
            old(reader).data@,
            old(reader).cursor as nat,
            audio_channels as nat,
            views(codebooks@),
        ) is Some,
        result is Ok ==> Some(result->Ok_0@) == times_then(
            old(reader).data@,
            old(reader).cursor as nat,
            audio_channels as nat,
            views(codebooks@),
        ),
{
    read_times(reader)?;
    let floors = read_floors(reader, codebooks.len() as u16)?;
    setup_from_residues(reader, audio_channels, codebooks, floors)
}

impl OggVorbisPage {
    /// Reads the setup header from the packet at `segment_index`, for a
    /// stream of `audio_channels` channels. Fails when the page has no
    /// such packet, when the packet is not a setup packet, when it ends
    /// before its parts do, when Vorbis does not accept one of its parts,
    /// and when the framing bit is not set.
    pub fn get_setup(&self, audio_channels: u8, segment_index: usize) -> (result: Result<
        IVorbisSetupHeader,
        VorbisFormatError,
    >)
        requires
            self.wf(),
        ensures
            result is Ok <==> segment_index < self.packet_count() && is_setup(
                self.packet(segment_index as int),
                audio_channels as nat,
            ),
            result is Ok ==> Some(result->Ok_0@) == setup_of(
                self.packet(segment_index as int),
                audio_channels as nat,
            ),
    {
        let array = match self.ogg_page.get_page_segment(segment_index) {
            Ok(array) => array,
            Err(e) => {
                return Err(VorbisFormatError::from_ogg(&e));
            },
        };
        proof {
            lemma_packet_len(&self.ogg_page, segment_index as int);
        }
        if !bytes_are_header(array.as_slice()) {
            return Err(VorbisFormatError("Invalid magic signature".to_string()));
        }
        if array[0] != VorbisHeaderType::Setup.code() {
            return Err(VorbisFormatError("The packet is not a setup packet".to_string()));
        }
        let mut reader = BitStreamReader::new(array, 7 * 8);
        let codebooks = read_codebooks(&mut reader)?;
        setup_from_times(&mut reader, audio_channels, codebooks)
    }
}

} // verus!
