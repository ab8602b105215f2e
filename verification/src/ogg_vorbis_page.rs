//! An Ogg page that carries Vorbis packets: telling the header packets
//! apart and reading the identification header.

use crate::bit_stream::{bits_value, BitStreamReader};
use crate::ogg_page::{
    begins_with_page, lengths_after_removal, packet_bytes, page_of, removal, replacement,
    with_checksum, OggFormatError, OggPage,
};
use crate::lacing::lacing;
use vstd::arithmetic::power2::{lemma2_to64, pow2};
use vstd::prelude::*;

verus! {

/// A packet that breaks the Vorbis header format.
#[derive(Debug)]
pub struct VorbisFormatError(pub String);

impl VorbisFormatError {
    /// The error with its kind in front, as it is shown to a user.
    pub fn to_string(&self) -> (text: String)
        ensures
            text@ == "VorbisFormatError: "@ + self.0@,
    {
        let mut text = "VorbisFormatError: ".to_string();
        text.append(self.0.as_str());
        text
    }

    /// The Vorbis error that stands for an error of the page codec.
    pub fn from_ogg(error: &OggFormatError) -> (converted: Self)
        ensures
            converted.0@ == "OggFormatError: "@ + error.0@,
    {
        VorbisFormatError(error.to_string())
    }
}

/// The three kinds of Vorbis header packet.
#[derive(Debug, Clone, Copy, PartialEq, Eq, Structural)]
pub enum VorbisHeaderType {
    Identification,
    Comment,
    Setup,
}

impl VorbisHeaderType {
    /// The first byte of a header packet of this kind.
    pub open spec fn spec_code(self) -> u8 {
        match self {
            VorbisHeaderType::Identification => 1,
            VorbisHeaderType::Comment => 3,
            VorbisHeaderType::Setup => 5,
        }
    }

    /// The first byte of a header packet of this kind.
    #[verifier::when_used_as_spec(spec_code)]
    pub fn code(self) -> (code: u8)
        ensures
            code == self.spec_code(),
    {
        match self {
            VorbisHeaderType::Identification => 1,
            VorbisHeaderType::Comment => 3,
            VorbisHeaderType::Setup => 5,
        }
    }
}

/// The identification header of a Vorbis stream.
#[derive(Debug, Clone, Copy, PartialEq, Eq, Structural)]
pub struct IVorbisIdentificationHeader {
    pub vorbis_version: u32,
    pub audio_channels: u8,
    pub audio_sample_rate: u32,
    pub bitrate_maximum: u32,
    pub bitrate_nominal: u32,
    pub bitrate_minimum: u32,
    pub blocksize0: usize,
    pub blocksize1: usize,
    pub framing_flag: bool,
}

/// The packet is a header packet: its bytes 1 to 6 spell "vorbis".
pub open spec fn is_header(packet: Seq<u8>) -> bool {
    &&& packet.len() >= 7
    &&& packet[1] == 0x76
    &&& packet[2] == 0x6f
    &&& packet[3] == 0x72
    &&& packet[4] == 0x62
    &&& packet[5] == 0x69
    &&& packet[6] == 0x73
}

/// The packet is a header packet of the given kind.
pub open spec fn is_header_of(packet: Seq<u8>, kind: VorbisHeaderType) -> bool {
    is_header(packet) && packet[0] == kind.spec_code()
}

/// A block size that Vorbis allows: a power of two from 64 to 8192.
pub open spec fn is_block_size(size: nat) -> bool {
    size == 64 || size == 128 || size == 256 || size == 512 || size == 1024 || size == 2048
        || size == 4096 || size == 8192
}

/// The number of bytes of an identification packet.
pub const IDENTIFICATION_SIZE: usize = 30;

/// The fields of an identification packet, read one after the other from
/// the bit that follows the seven bytes of the packet's start.
pub open spec fn identification_of(packet: Seq<u8>) -> IVorbisIdentificationHeader
    recommends
        packet.len() >= 30,
{
    IVorbisIdentificationHeader {
        vorbis_version: bits_value(packet, 56, 32) as u32,
        audio_channels: bits_value(packet, 88, 8) as u8,
        audio_sample_rate: bits_value(packet, 96, 32) as u32,
        bitrate_maximum: bits_value(packet, 128, 32) as u32,
        bitrate_nominal: bits_value(packet, 160, 32) as u32,
        bitrate_minimum: bits_value(packet, 192, 32) as u32,
        blocksize0: pow2(bits_value(packet, 224, 4)) as usize,
        blocksize1: pow2(bits_value(packet, 228, 4)) as usize,
        framing_flag: bits_value(packet, 232, 1) == 1,
    }
}

/// The packet is a whole identification packet that Vorbis accepts: the
/// version is zero, both block sizes are allowed ones, the first is not the
/// larger, and the framing bit is set.
pub open spec fn is_identification(packet: Seq<u8>) -> bool {
    &&& is_header_of(packet, VorbisHeaderType::Identification)
    &&& packet.len() >= 30
    &&& bits_value(packet, 56, 32) == 0
    &&& is_block_size(pow2(bits_value(packet, 224, 4)))
    &&& is_block_size(pow2(bits_value(packet, 228, 4)))
    &&& bits_value(packet, 224, 4) <= bits_value(packet, 228, 4)
    &&& bits_value(packet, 232, 1) == 1
}

fn is_allowed_block_size(size: usize) -> (allowed: bool)
    ensures
        allowed == is_block_size(size as nat),
{
    size == 64 || size == 128 || size == 256 || size == 512 || size == 1024 || size == 2048
        || size == 4096 || size == 8192
}

/// Two to the power of `exponent`, for an exponent of four bits.
fn block_size(exponent: u8) -> (size: usize)
    requires
        exponent < 16,
    ensures
        size == pow2(exponent as nat),
{
    proof {
        lemma2_to64();
        vstd::bits::lemma_usize_shl_is_mul(1usize, exponent as usize);
    }
    1usize << (exponent as usize)
}

/// An Ogg page of a Vorbis stream.
#[derive(Debug)]
pub struct OggVorbisPage {
    pub ogg_page: OggPage,
}

impl Clone for OggVorbisPage {
    fn clone(&self) -> (copy: Self)
        ensures
            copy.ogg_page@ == self.ogg_page@,
            copy.ogg_page.buffer@ == self.ogg_page.buffer@,
            copy.wf() == self.wf(),
    {
        Self { ogg_page: self.ogg_page.clone() }
    }
}

impl OggVorbisPage {
    /// The page inside is well formed.
    pub open spec fn wf(&self) -> bool {
        self.ogg_page.wf()
    }

    /// The number of packets of the page.
    pub open spec fn packet_count(&self) -> nat {
        self.ogg_page@.parsed_segment_table.len()
    }

    /// The bytes of the packet at `index`.
    pub open spec fn packet(&self, index: int) -> Seq<u8> {
        packet_bytes(self.ogg_page@, index)
    }

    /// Reads the page that starts `buffer`.
    pub fn new(buffer: Vec<u8>) -> (result: Result<Self, VorbisFormatError>)
        ensures
            result is Ok <==> begins_with_page(buffer@),
            result is Ok ==> result->Ok_0.ogg_page@ == page_of(buffer@) && result->Ok_0.wf(),
    {
        match OggPage::new(buffer) {
            Ok(ogg_page) => Ok(Self { ogg_page }),
            Err(e) => Err(VorbisFormatError::from_ogg(&e)),
        }
    }

    /// Whether the packet at `segment_index` is a header packet.
    pub fn is_header_packet(&self, segment_index: usize) -> (header: bool)
        requires
            self.wf(),
            segment_index < self.packet_count(),
        ensures
            header == is_header(self.packet(segment_index as int)),
    {
        match self.ogg_page.get_page_segment(segment_index) {
            Ok(array) => bytes_are_header(array.as_slice()),
            Err(_) => false,
        }
    }

    /// Whether the packet at `segment_index` starts with the byte of an
    /// identification packet.
    pub fn is_identification_packet(&self, segment_index: usize) -> (found: bool)
        requires
            self.wf(),
            segment_index < self.packet_count(),
        ensures
            found == (self.packet(segment_index as int)[0] == 1),
    {
        self.first_byte_is(segment_index, VorbisHeaderType::Identification)
    }

    /// Whether the packet at `segment_index` starts with the byte of a
    /// comment packet.
    pub fn is_comment_packet(&self, segment_index: usize) -> (found: bool)
        requires
            self.wf(),
            segment_index < self.packet_count(),
        ensures
            found == (self.packet(segment_index as int)[0] == 3),
    {
        self.first_byte_is(segment_index, VorbisHeaderType::Comment)
    }

    /// Whether the packet at `segment_index` starts with the byte of a
    /// setup packet.
    pub fn is_setup_packet(&self, segment_index: usize) -> (found: bool)
        requires
            self.wf(),
            segment_index < self.packet_count(),
        ensures
            found == (self.packet(segment_index as int)[0] == 5),
    {
        self.first_byte_is(segment_index, VorbisHeaderType::Setup)
    }

    fn first_byte_is(&self, segment_index: usize, kind: VorbisHeaderType) -> (found: bool)
        requires
            self.wf(),
            segment_index < self.packet_count(),
        ensures
            found == (self.packet(segment_index as int)[0] == kind.spec_code()),
            self.packet(segment_index as int).len() > 0,
    {
        proof {
            self.ogg_page.lemma_packets_in_body();
            crate::ogg_page::lemma_packet_len(&self.ogg_page, segment_index as int);
        }
        match self.ogg_page.get_page_segment(segment_index) {
            Ok(array) => array[0] == kind.code(),
            Err(_) => false,
        }
    }

    /// Reads the identification header from the packet at
    /// `segment_index`. Fails when the page has no such packet, when the
    /// packet is not a whole identification packet, and when Vorbis does
    /// not accept what it holds.
    pub fn get_identification(&self, segment_index: usize) -> (result: Result<
        IVorbisIdentificationHeader,
        VorbisFormatError,
    >)
        requires
            self.wf(),
        ensures
            result is Ok <==> segment_index < self.packet_count() && is_identification(
                self.packet(segment_index as int),
            ),
            result is Ok ==> result->Ok_0 == identification_of(self.packet(segment_index as int)),
            result is Ok ==> result->Ok_0.vorbis_version == 0 && result->Ok_0.framing_flag,
    {
        let array = match self.ogg_page.get_page_segment(segment_index) {
            Ok(array) => array,
            Err(e) => {
                return Err(VorbisFormatError::from_ogg(&e));
            },
        };
        proof {
            self.ogg_page.lemma_packets_in_body();
            crate::ogg_page::lemma_packet_len(&self.ogg_page, segment_index as int);
        }
        if !bytes_are_header(array.as_slice()) {
            return Err(VorbisFormatError("Invalid magic signature".to_string()));
        }
        if array[0] != VorbisHeaderType::Identification.code() {
            return Err(
                VorbisFormatError("The packet is not an identification packet".to_string()),
            );
        }
        if array.len() < IDENTIFICATION_SIZE {
            return Err(VorbisFormatError("Incomplete identification packet".to_string()));
        }
        let mut reader = BitStreamReader::new(array, 7 * 8);

        let vorbis_version = reader.read_uint32();
        if vorbis_version != 0 {
            return Err(VorbisFormatError("Unsupported Vorbis version".to_string()));
        }
        let audio_channels = reader.read_uint8();
        let audio_sample_rate = reader.read_uint32();
        let bitrate_maximum = reader.read_uint32();
        let bitrate_nominal = reader.read_uint32();
        let bitrate_minimum = reader.read_uint32();
        let exponent0 = reader.read_uint4();
        let exponent1 = reader.read_uint4();
        let blocksize0 = block_size(exponent0);
        let blocksize1 = block_size(exponent1);
        proof {
            lemma2_to64();
        }
        if !is_allowed_block_size(blocksize0) {
            return Err(VorbisFormatError("Invalid blocksize0 values".to_string()));
        }
        if !is_allowed_block_size(blocksize1) {
            return Err(VorbisFormatError("Invalid blocksize1 values".to_string()));
        }
        if blocksize0 > blocksize1 {
            proof {
                if exponent0 <= exponent1 {
                    if exponent0 < exponent1 {
                        vstd::arithmetic::power2::lemma_pow2_strictly_increases(
                            exponent0 as nat,
                            exponent1 as nat,
                        );
                    }
                }
            }
            return Err(
                VorbisFormatError(
                    "blocksize0 must be less than or equal to blocksize1".to_string(),
                ),
            );
        }
        proof {
            if exponent0 > exponent1 {
                vstd::arithmetic::power2::lemma_pow2_strictly_increases(
                    exponent1 as nat,
                    exponent0 as nat,
                );
            }
        }
        let framing_flag = reader.read_bool();
        if !framing_flag {
            return Err(VorbisFormatError("Framing bit must be nonzero".to_string()));
        }
        Ok(
            IVorbisIdentificationHeader {
                vorbis_version,
                audio_channels,
                audio_sample_rate,
                bitrate_maximum,
                bitrate_nominal,
                bitrate_minimum,
                blocksize0,
                blocksize1,
                framing_flag,
            },
        )
    }
}

/// Whether the bytes 1 to 6 of a packet spell "vorbis".
pub fn bytes_are_header(array: &[u8]) -> (header: bool)
    ensures
        header == is_header(array@),
{
    array.len() >= 7 && array[1] == 0x76 && array[2] == 0x6f && array[3] == 0x72 && array[4]
        == 0x62 && array[5] == 0x69 && array[6] == 0x73
}

impl OggVorbisPage {
    /// This page without `n` packets from `index` on, with its checksum
    /// computed anew. Fails when the page has no packet at `index`, when
    /// `n` is zero, and when fewer than `n` packets follow from `index` on.
    pub fn remove_page_segment(&self, index: usize, n: usize) -> (result: Result<
        Self,
        VorbisFormatError,
    >)
        requires
            self.wf(),
        ensures
            result is Ok <==> index < self.packet_count() && n > 0 && index + n
                <= self.packet_count(),
            result is Ok ==> {
                &&& result->Ok_0.ogg_page@ == with_checksum(
                    page_of(removal(self.ogg_page@, index as int, n as int)),
                )
                &&& result->Ok_0.wf()
                &&& result->Ok_0.ogg_page.checksum_ok()
                &&& result->Ok_0.ogg_page@.parsed_segment_table == lengths_after_removal(
                    self.ogg_page@.parsed_segment_table,
                    index as int,
                    n as int,
                )
                &&& result->Ok_0.packet_count() == self.packet_count() - n
            },
    {
        match self.ogg_page.remove_page_segment(index, n) {
            Ok(ogg_page) => Ok(Self { ogg_page }),
            Err(e) => Err(VorbisFormatError::from_ogg(&e)),
        }
    }

    /// This page with `segment` in place of the packet at `index`, with
    /// its checksum computed anew. Fails when the page has no packet at
    /// `index`, and when the new segment table would hold more than 255
    /// lacing values.
    pub fn replace_page_segment(&self, segment: Vec<u8>, index: usize) -> (result: Result<
        Self,
        VorbisFormatError,
    >)
        requires
            self.wf(),
        ensures
            result is Ok <==> index < self.packet_count() && lacing(
                self.ogg_page@.parsed_segment_table.update(index as int, segment@.len()),
            ).len() <= 255,
            result is Ok ==> {
                &&& result->Ok_0.ogg_page@ == with_checksum(
                    page_of(replacement(self.ogg_page@, segment@, index as int)),
                )
                &&& result->Ok_0.wf()
                &&& result->Ok_0.ogg_page.checksum_ok()
                &&& segment@.len() > 0 ==> {
                    &&& result->Ok_0.ogg_page@.parsed_segment_table
                        == self.ogg_page@.parsed_segment_table.update(
                        index as int,
                        segment@.len(),
                    )
                    &&& result->Ok_0.packet_count() == self.packet_count()
                }
            },
    {
        match self.ogg_page.replace_page_segment(segment, index) {
            Ok(ogg_page) => Ok(Self { ogg_page }),
            Err(e) => Err(VorbisFormatError::from_ogg(&e)),
        }
    }
}

} // verus!
