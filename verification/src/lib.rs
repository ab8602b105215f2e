//! Ogg page framing and Vorbis header packets: parsing, editing and
//! re-emitting the header region of an Ogg Vorbis stream, with every
//! function verified against a mathematical model of the wire format.

pub mod bit_stream;
pub mod byte_order;
pub mod comment_round_trip;
pub mod crc;
pub mod lacing;
pub mod ogg_page;
pub mod ogg_vorbis_page;
pub mod read_ogg_vorbis_file;
pub mod setup_codebook;
pub mod setup_floor;
pub mod setup_header;
pub mod setup_mapping;
pub mod setup_residue;
pub mod text;
pub mod utils;
pub mod vorbis_comment;
pub mod vorbis_math;
pub mod vorbis_setup;

pub use bit_stream::BitStreamReader;
pub use crc::vorbis_crc32;
pub use ogg_page::{OggFormatError, OggPage};
pub use read_ogg_vorbis_file::{
    read_ogg_vorbis_file, OggParseResult, OggVorbisPacket, OggVorbisPacketsParseResult,
    OggVorbisPageResult, OggVorbiseHeaderCommentParseResult,
    OggVorbiseHeaderIdentificationParseResult, OggVorbiseHeaderSetupParseResult,
};
pub use utils::{
    collect_ogg_vorbis_file, find_packet_by_type, trim_ogg_vorbis_file,
    update_ogg_vorbis_comments,
};
pub use vorbis_comment::IVorbisCommentHeader;
pub use vorbis_math::{float32_unpack, ilog, lookup1_values, VorbisFloat};
pub use vorbis_setup::{
    IVorbisFloor, IVorbisFloorType0, IVorbisFloorType1, IVorbisMapping, IVorbisMode,
    IVorbisResidue, IVorbisSetupCodebook, IVorbisSetupHeader, VorbisSetupCodebookLookupType,
};
pub use ogg_vorbis_page::{
    IVorbisIdentificationHeader, OggVorbisPage, VorbisFormatError, VorbisHeaderType,
};
