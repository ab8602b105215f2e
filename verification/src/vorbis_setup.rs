//! The setup header of a Vorbis stream: its parts as data, and the shape
//! of a list of parts that stand one behind the other in a packet.

use crate::bit_stream::{bits_value, BitStreamReader};
use crate::ogg_vorbis_page::{OggVorbisPage, VorbisFormatError};
use crate::vorbis_math::VorbisFloat;
use vstd::prelude::*;

verus! {

/// How the entries of a codebook map to values.
#[derive(Debug, Clone, Copy, PartialEq, Eq, Structural)]
pub enum VorbisSetupCodebookLookupType {
    NoLookup,
    Implicitly,
    Explicitly,
}

impl VorbisSetupCodebookLookupType {
    /// The lookup type with the given number.
    pub open spec fn of(value: nat) -> Self {
        if value == 0 {
            VorbisSetupCodebookLookupType::NoLookup
        } else if value == 1 {
            VorbisSetupCodebookLookupType::Implicitly
        } else {
            VorbisSetupCodebookLookupType::Explicitly
        }
    }

    /// The lookup type with the given number, which is at most 2.
    pub fn from(value: u8) -> (kind: Self)
        requires
            value <= 2,
        ensures
            kind == Self::of(value as nat),
    {
        if value == 0 {
            VorbisSetupCodebookLookupType::NoLookup
        } else if value == 1 {
            VorbisSetupCodebookLookupType::Implicitly
        } else {
            VorbisSetupCodebookLookupType::Explicitly
        }
    }
}

/// A codebook of the setup header.
#[derive(Debug)]
pub struct IVorbisSetupCodebook {
    pub dimensions: u16,
    pub entries: u32,
    pub codeword_lengths: Vec<u8>,
    pub lookup_type: VorbisSetupCodebookLookupType,
    pub minimum_value: Option<VorbisFloat>,
    pub delta_value: Option<VorbisFloat>,
    pub value_bits: Option<u8>,
    pub sequence_p: Option<bool>,
    pub multiplicands: Option<Vec<u32>>,
}

/// A codebook as a mathematical value.
pub struct CodebookView {
    pub dimensions: u16,
    pub entries: u32,
    pub codeword_lengths: Seq<u8>,
    pub lookup_type: VorbisSetupCodebookLookupType,
    pub minimum_value: Option<VorbisFloat>,
    pub delta_value: Option<VorbisFloat>,
    pub value_bits: Option<u8>,
    pub sequence_p: Option<bool>,
    pub multiplicands: Option<Seq<u32>>,
}

impl View for IVorbisSetupCodebook {
    type V = CodebookView;

    open spec fn view(&self) -> CodebookView {
        CodebookView {
            dimensions: self.dimensions,
            entries: self.entries,
            codeword_lengths: self.codeword_lengths@,
            lookup_type: self.lookup_type,
            minimum_value: self.minimum_value,
            delta_value: self.delta_value,
            value_bits: self.value_bits,
            sequence_p: self.sequence_p,
            multiplicands: match self.multiplicands {
                Some(values) => Some(values@),
                None => None,
            },
        }
    }
}

/// A floor of type 0.
#[derive(Debug)]
pub struct IVorbisFloorType0 {
    pub order: u8,
    pub rate: u16,
    pub bark_map_size: u16,
    pub amplitude_bits: u8,
    pub amplitude_offset: u8,
    pub number_of_books: u8,
    pub book_list: Vec<u8>,
}

/// A floor of type 0 as a mathematical value.
pub struct Floor0View {
    pub order: u8,
    pub rate: u16,
    pub bark_map_size: u16,
    pub amplitude_bits: u8,
    pub amplitude_offset: u8,
    pub number_of_books: u8,
    pub book_list: Seq<u8>,
}

impl View for IVorbisFloorType0 {
    type V = Floor0View;

    open spec fn view(&self) -> Floor0View {
        Floor0View {
            order: self.order,
            rate: self.rate,
            bark_map_size: self.bark_map_size,
            amplitude_bits: self.amplitude_bits,
            amplitude_offset: self.amplitude_offset,
            number_of_books: self.number_of_books,
            book_list: self.book_list@,
        }
    }
}

/// The views of a list of rows.
pub open spec fn rows_view(rows: Seq<Vec<i32>>) -> Seq<Seq<i32>> {
    Seq::new(rows.len(), |i: int| rows[i]@)
}

/// A floor of type 1.
#[derive(Debug)]
pub struct IVorbisFloorType1 {
    pub partitions: u8,
    pub partition_class_list: Vec<u8>,
    pub class_dimensions: Vec<u8>,
    pub class_subclasses: Vec<u8>,
    pub class_masterbooks: Vec<i32>,
    pub subclass_books: Vec<Vec<i32>>,
    pub multiplier: u8,
    pub rangebits: u8,
    pub x_list: Vec<i32>,
    pub values: u8,
}

/// A floor of type 1 as a mathematical value.
pub struct Floor1View {
    pub partitions: u8,
    pub partition_class_list: Seq<u8>,
    pub class_dimensions: Seq<u8>,
    pub class_subclasses: Seq<u8>,
    pub class_masterbooks: Seq<i32>,
    pub subclass_books: Seq<Seq<i32>>,
    pub multiplier: u8,
    pub rangebits: u8,
    pub x_list: Seq<i32>,
    pub values: u8,
}

impl View for IVorbisFloorType1 {
    type V = Floor1View;

    open spec fn view(&self) -> Floor1View {
        Floor1View {
            partitions: self.partitions,
            partition_class_list: self.partition_class_list@,
            class_dimensions: self.class_dimensions@,
            class_subclasses: self.class_subclasses@,
            class_masterbooks: self.class_masterbooks@,
            subclass_books: rows_view(self.subclass_books@),
            multiplier: self.multiplier,
            rangebits: self.rangebits,
            x_list: self.x_list@,
            values: self.values,
        }
    }
}

/// A floor of the setup header.
#[derive(Debug)]
pub enum IVorbisFloor {
    Type0(IVorbisFloorType0),
    Type1(IVorbisFloorType1),
}

/// A floor as a mathematical value.
pub enum FloorView {
    Type0(Floor0View),
    Type1(Floor1View),
}

impl View for IVorbisFloor {
    type V = FloorView;

    open spec fn view(&self) -> FloorView {
        match self {
            IVorbisFloor::Type0(floor) => FloorView::Type0(floor@),
            IVorbisFloor::Type1(floor) => FloorView::Type1(floor@),
        }
    }
}

/// A residue of the setup header.
#[derive(Debug)]
pub struct IVorbisResidue {
    pub residue_type: u16,
    pub begin: u32,
    pub end: u32,
    pub partition_size: u32,
    pub classifications: u8,
    pub classbook: u8,
    pub cascade: Vec<u8>,
    pub books: Vec<Vec<i32>>,
}

/// A residue as a mathematical value.
pub struct ResidueView {
    pub residue_type: u16,
    pub begin: u32,
    pub end: u32,
    pub partition_size: u32,
    pub classifications: u8,
    pub classbook: u8,
    pub cascade: Seq<u8>,
    pub books: Seq<Seq<i32>>,
}

impl View for IVorbisResidue {
    type V = ResidueView;

    open spec fn view(&self) -> ResidueView {
        ResidueView {
            residue_type: self.residue_type,
            begin: self.begin,
            end: self.end,
            partition_size: self.partition_size,
            classifications: self.classifications,
            classbook: self.classbook,
            cascade: self.cascade@,
            books: rows_view(self.books@),
        }
    }
}

/// A mapping of the setup header.
#[derive(Debug)]
pub struct IVorbisMapping {
    pub submaps: u8,
    pub coupling_steps: u16,
    pub magnitude: Vec<u8>,
    pub angle: Vec<u8>,
    pub mux: Vec<u8>,
    pub submap_floors: Vec<u8>,
    pub submap_residues: Vec<u8>,
}

/// A mapping as a mathematical value.
pub struct MappingView {
    pub submaps: u8,
    pub coupling_steps: u16,
    pub magnitude: Seq<u8>,
    pub angle: Seq<u8>,
    pub mux: Seq<u8>,
    pub submap_floors: Seq<u8>,
    pub submap_residues: Seq<u8>,
}

impl View for IVorbisMapping {
    type V = MappingView;

    open spec fn view(&self) -> MappingView {
        MappingView {
            submaps: self.submaps,
            coupling_steps: self.coupling_steps,
            magnitude: self.magnitude@,
            angle: self.angle@,
            mux: self.mux@,
            submap_floors: self.submap_floors@,
            submap_residues: self.submap_residues@,
        }
    }
}

/// The views of a list of parts.
pub open spec fn views<T: View>(parts: Seq<T>) -> Seq<T::V> {
    Seq::new(parts.len(), |i: int| parts[i]@)
}

/// One more part adds its view to the views of the others.
pub proof fn lemma_views_push<T: View>(parts: Seq<T>, part: T)
    ensures
        views(parts.push(part)) == views(parts).push(part@),
{
    assert(views(parts.push(part)) =~= views(parts).push(part@));
}

/// A mode of the setup header.
#[derive(Debug, Clone, Copy, PartialEq, Eq, Structural)]
pub struct IVorbisMode {
    pub blockflag: bool,
    pub windowtype: u16,
    pub transformtype: u16,
    pub mapping: u8,
}

/// The setup header of a Vorbis stream.
#[derive(Debug)]
pub struct IVorbisSetupHeader {
    pub codebooks: Vec<IVorbisSetupCodebook>,
    pub floors: Vec<IVorbisFloor>,
    pub residues: Vec<IVorbisResidue>,
    pub mappings: Vec<IVorbisMapping>,
    pub modes: Vec<IVorbisMode>,
    pub framing_bit: bool,
}

/// A setup header as a mathematical value.
pub struct SetupView {
    pub codebooks: Seq<CodebookView>,
    pub floors: Seq<FloorView>,
    pub residues: Seq<ResidueView>,
    pub mappings: Seq<MappingView>,
    pub modes: Seq<IVorbisMode>,
    pub framing_bit: bool,
}

impl View for IVorbisSetupHeader {
    type V = SetupView;

    open spec fn view(&self) -> SetupView {
        SetupView {
            codebooks: views(self.codebooks@),
            floors: views(self.floors@),
            residues: views(self.residues@),
            mappings: views(self.mappings@),
            modes: self.modes@,
            framing_bit: self.framing_bit,
        }
    }
}

/// `count` bits from `at` on lie inside the data.
pub open spec fn within(data: Seq<u8>, at: nat, count: nat) -> bool {
    at + count <= 8 * data.len()
}

/// What reading a part of a packet gives: the part and the place behind
/// it, or nothing where the packet does not hold such a part.
pub type Read<T> = Option<(T, nat)>;

/// Reads `remaining` parts that stand one behind the other from `at` on,
/// and adds them to `so_far`. Nothing comes of it when one part is missing.
pub open spec fn repeat_from<T>(
    part: spec_fn(nat) -> Read<T>,
    at: nat,
    remaining: nat,
    so_far: Seq<T>,
) -> Read<Seq<T>>
    decreases remaining,
{
    if remaining == 0 {
        Some((so_far, at))
    } else {
        match part(at) {
            Some((value, next)) => repeat_from(
                part,
                next,
                (remaining - 1) as nat,
                so_far.push(value),
            ),
            None => None,
        }
    }
}

/// Reads `count` parts that stand one behind the other from `at` on.
pub open spec fn repeat<T>(part: spec_fn(nat) -> Read<T>, at: nat, count: nat) -> Read<Seq<T>> {
    repeat_from(part, at, count, Seq::empty())
}

/// A list that is read has as many parts as were asked for, behind those
/// it began with.
pub proof fn lemma_list_length_from<T>(
    part: spec_fn(nat) -> Read<T>,
    at: nat,
    remaining: nat,
    so_far: Seq<T>,
)
    requires
        repeat_from(part, at, remaining, so_far) is Some,
    ensures
        repeat_from(part, at, remaining, so_far)->Some_0.0.len() == so_far.len() + remaining,
    decreases remaining,
{
    if remaining > 0 {
        let (value, next) = part(at)->Some_0;
        lemma_list_length_from(part, next, (remaining - 1) as nat, so_far.push(value));
    }
}

/// A list that is read has as many parts as were asked for.
pub proof fn lemma_list_length<T>(part: spec_fn(nat) -> Read<T>, at: nat, count: nat)
    requires
        repeat(part, at, count) is Some,
    ensures
        repeat(part, at, count)->Some_0.0.len() == count,
{
    lemma_list_length_from(part, at, count, Seq::empty());
}

/// The error for a setup packet that ends before its parts do.
pub fn incomplete_setup() -> (error: VorbisFormatError)
    ensures
        error.0@ == "Incomplete setup packet"@,
{
    VorbisFormatError("Incomplete setup packet".to_string())
}

/// A mode: a flag, two numbers of 16 bits that must be zero, and the
/// number of a mapping.
pub open spec fn mode_at(data: Seq<u8>, at: nat) -> Read<IVorbisMode> {
    if !within(data, at, 41) {
        None
    } else if bits_value(data, at + 1, 16) != 0 || bits_value(data, at + 17, 16) != 0 {
        None
    } else {
        Some(
            (
                IVorbisMode {
                    blockflag: bits_value(data, at, 1) == 1,
                    windowtype: 0,
                    transformtype: 0,
                    mapping: bits_value(data, at + 33, 8) as u8,
                },
                at + 41,
            ),
        )
    }
}

/// The reading of modes, one behind the other.
pub open spec fn mode_part(data: Seq<u8>) -> spec_fn(nat) -> Read<IVorbisMode> {
    |at: nat| mode_at(data, at)
}

impl OggVorbisPage {
    /// Reads a mode. Fails when the data end before the mode does, and
    /// when the window type or the transform type is not zero.
    pub fn parse_mode(reader: &mut BitStreamReader) -> (result: Result<
        IVorbisMode,
        VorbisFormatError,
    >)
        requires
            old(reader).addressable(),
        ensures
            final(reader).data == old(reader).data,
            result is Ok <==> mode_at(old(reader).data@, old(reader).cursor as nat) is Some,
            result is Ok ==> mode_at(old(reader).data@, old(reader).cursor as nat) == Some(
                (result->Ok_0, final(reader).cursor as nat),
            ),
    {
        if !reader.has_bits(41) {
            return Err(incomplete_setup());
        }
        let blockflag = reader.read_bool();
        let windowtype = reader.read_uint16();
        let transformtype = reader.read_uint16();
        let mapping = reader.read_uint8();
        if windowtype != 0 || transformtype != 0 {
            return Err(VorbisFormatError("Invalid windowtype or transformtype".to_string()));
        }
        Ok(IVorbisMode { blockflag, windowtype, transformtype, mapping })
    }
}

} // verus!
