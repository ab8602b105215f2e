//! One Ogg page: its framing, its packets, and the edits that rebuild it.

use crate::byte_order::{
    le_bytes_u32, le_bytes_u64, le_u32, le_u64, lemma_le_bytes_u32, lemma_le_bytes_u64,
    lemma_le_u32, read_u32_le_at, read_u64_le_at, read_u8_at,
    write_u32_le_at,
};
use crate::crc::{crc_bytes, crc_table, crc_update};
use crate::lacing::{
    all_positive, as_lengths, group_from, lace_one, lacing, lemma_group_bounds,
    lemma_lacing_concat, lemma_lacing_drops_zeros, lemma_lacing_push, lemma_lacing_round_trip,
    lemma_lacing_sum, lemma_regroup_fits, lemma_table_sum_bound, lemma_table_sum_concat,
    lemma_total_concat, lemma_total_one, lemma_total_prefix, lemma_total_push, packet_lengths,
    table_sum, total,
};
use vstd::prelude::*;

verus! {

/// The length of the fixed part of a page header.
pub const PAGE_HEADER_SIZE: usize = 27;

/// A page that breaks the Ogg framing, or an edit that a page cannot take.
#[derive(Debug)]
pub struct OggFormatError(pub String);

impl OggFormatError {
    /// The error with its kind in front, as it is shown to a user.
    pub fn to_string(&self) -> (text: String)
        ensures
            text@ == "OggFormatError: "@ + self.0@,
    {
        let mut text = "OggFormatError: ".to_string();
        text.append(self.0.as_str());
        text
    }
}

/// One Ogg page: the bytes of the page, and the fields read from them.
#[derive(Debug)]
pub struct OggPage {
    pub buffer: Vec<u8>,
    pub structure_version: u8,
    pub header_type: u8,
    pub is_fresh_packet: bool,
    pub is_bos: bool,
    pub is_boe: bool,
    pub absolute_granule_position: u64,
    pub stream_serial_number: u32,
    pub page_sequence_number: u32,
    pub page_checksum: u32,
    pub page_segments: usize,
    pub segment_table: Vec<u8>,
    pub parsed_segment_table: Vec<usize>,
    pub page_size: usize,
}

/// A page as a mathematical value.
pub struct OggPageView {
    pub buffer: Seq<u8>,
    pub structure_version: u8,
    pub header_type: u8,
    pub is_fresh_packet: bool,
    pub is_bos: bool,
    pub is_boe: bool,
    pub absolute_granule_position: u64,
    pub stream_serial_number: u32,
    pub page_sequence_number: u32,
    pub page_checksum: u32,
    pub page_segments: nat,
    pub segment_table: Seq<u8>,
    pub parsed_segment_table: Seq<nat>,
    pub page_size: nat,
}

impl View for OggPage {
    type V = OggPageView;

    open spec fn view(&self) -> OggPageView {
        OggPageView {
            buffer: self.buffer@,
            structure_version: self.structure_version,
            header_type: self.header_type,
            is_fresh_packet: self.is_fresh_packet,
            is_bos: self.is_bos,
            is_boe: self.is_boe,
            absolute_granule_position: self.absolute_granule_position,
            stream_serial_number: self.stream_serial_number,
            page_sequence_number: self.page_sequence_number,
            page_checksum: self.page_checksum,
            page_segments: self.page_segments as nat,
            segment_table: self.segment_table@,
            parsed_segment_table: as_lengths(self.parsed_segment_table@),
            page_size: self.page_size as nat,
        }
    }
}

/// The bytes start with the capture pattern "OggS".
pub open spec fn has_capture_pattern(bytes: Seq<u8>) -> bool {
    &&& bytes.len() >= 4
    &&& bytes[0] == 0x4f
    &&& bytes[1] == 0x67
    &&& bytes[2] == 0x67
    &&& bytes[3] == 0x53
}

/// The segment table of the page that starts the bytes.
pub open spec fn segment_table_of(bytes: Seq<u8>) -> Seq<u8>
    recommends
        bytes.len() >= 27 + bytes[26],
{
    bytes.subrange(27, 27 + bytes[26] as int)
}

/// The length of the page that starts the bytes: header, segment table and
/// the body that the table describes.
pub open spec fn page_length(bytes: Seq<u8>) -> nat
    recommends
        bytes.len() >= 27 + bytes[26],
{
    27 + bytes[26] as nat + table_sum(segment_table_of(bytes))
}

/// The bytes start with a whole page: the fixed header with its capture
/// pattern, the segment table, and all of the body.
pub open spec fn begins_with_page(bytes: Seq<u8>) -> bool {
    &&& bytes.len() >= 27
    &&& has_capture_pattern(bytes)
    &&& bytes.len() >= 27 + bytes[26]
    &&& bytes.len() >= page_length(bytes)
}

/// The page that starts the bytes.
pub open spec fn page_of(bytes: Seq<u8>) -> OggPageView
    recommends
        begins_with_page(bytes),
{
    let table = segment_table_of(bytes);
    OggPageView {
        buffer: bytes.subrange(0, page_length(bytes) as int),
        structure_version: bytes[4],
        header_type: bytes[5],
        is_fresh_packet: bytes[5] & 0x1 == 0,
        is_bos: bytes[5] & 0x2 != 0,
        is_boe: bytes[5] & 0x4 != 0,
        absolute_granule_position: le_u64(bytes.subrange(6, 14)) as u64,
        stream_serial_number: le_u32(bytes.subrange(14, 18)) as u32,
        page_sequence_number: le_u32(bytes.subrange(18, 22)) as u32,
        page_checksum: le_u32(bytes.subrange(22, 26)) as u32,
        page_segments: packet_lengths(table).len(),
        segment_table: table,
        parsed_segment_table: packet_lengths(table),
        page_size: page_length(bytes),
    }
}

/// Where the packet at `index` starts in the body of a page with these
/// packet lengths.
pub open spec fn packet_offset(lengths: Seq<nat>, index: int) -> nat
    recommends
        0 <= index <= lengths.len(),
{
    total(lengths.subrange(0, index))
}

/// The body of a page: what follows the segment table.
pub open spec fn body_of(page: OggPageView) -> Seq<u8> {
    page.buffer.subrange(27 + page.segment_table.len() as int, page.buffer.len() as int)
}

/// The bytes of the packet at `index` of a page.
pub open spec fn packet_bytes(page: OggPageView, index: int) -> Seq<u8>
    recommends
        0 <= index < page.parsed_segment_table.len(),
{
    let start = packet_offset(page.parsed_segment_table, index);
    body_of(page).subrange(start as int, start + page.parsed_segment_table[index] as int)
}

/// The checksum of a page with these bytes: the CRC of the bytes with
/// four zero bytes in place of the checksum field.
pub open spec fn page_crc(bytes: Seq<u8>) -> u32
    recommends
        bytes.len() >= 26,
{
    crc_bytes(
        crc_bytes(crc_bytes(0, bytes.subrange(0, 22)), seq![0u8, 0u8, 0u8, 0u8]),
        bytes.subrange(26, bytes.len() as int),
    )
}

/// A page read from a longer buffer is the page read from its own bytes.
pub proof fn lemma_page_of_own_bytes(bytes: Seq<u8>)
    requires
        begins_with_page(bytes),
    ensures
        begins_with_page(bytes.subrange(0, page_length(bytes) as int)),
        page_length(bytes.subrange(0, page_length(bytes) as int)) == page_length(bytes),
        page_of(bytes.subrange(0, page_length(bytes) as int)) == page_of(bytes),
{
    let own = bytes.subrange(0, page_length(bytes) as int);
    assert(segment_table_of(own) =~= segment_table_of(bytes));
    assert(own.subrange(0, page_length(own) as int) =~= own);
    assert(own.subrange(6, 14) =~= bytes.subrange(6, 14));
    assert(own.subrange(14, 18) =~= bytes.subrange(14, 18));
    assert(own.subrange(18, 22) =~= bytes.subrange(18, 22));
    assert(own.subrange(22, 26) =~= bytes.subrange(22, 26));
}

impl OggPage {
    /// The fields of the page are those that its own bytes yield, and the
    /// bytes hold the page and nothing after it.
    pub open spec fn wf(&self) -> bool {
        &&& begins_with_page(self.buffer@)
        &&& self.buffer@.len() == page_length(self.buffer@)
        &&& self@ == page_of(self.buffer@)
    }

    /// The stored checksum is the one that the bytes of the page yield.
    pub open spec fn checksum_ok(&self) -> bool {
        self.page_checksum == page_crc(self.buffer@)
    }

    /// Checks that `buffer` starts with a whole page, and returns the
    /// length of that page and the number of its lacing values.
    pub fn validate_page(buffer: &[u8]) -> (result: Result<(usize, usize), OggFormatError>)
        ensures
            result is Ok <==> begins_with_page(buffer@),
            result is Ok ==> result->Ok_0.0 == page_length(buffer@) && result->Ok_0.1
                == buffer@[26],
    {
        if buffer.len() < PAGE_HEADER_SIZE {
            return Err(OggFormatError("Incomplete buffer length".to_string()));
        }
        if buffer[0] != 0x4f || buffer[1] != 0x67 || buffer[2] != 0x67 || buffer[3] != 0x53 {
            return Err(OggFormatError("Invalid OGG magic signature".to_string()));
        }
        let page_segments_count: usize = buffer[26] as usize;
        if buffer.len() < PAGE_HEADER_SIZE + page_segments_count {
            return Err(OggFormatError("Incomplete segment table".to_string()));
        }
        let ghost table = segment_table_of(buffer@);
        let mut page_body_size: usize = 0;
        let mut i: usize = 0;
        while i < page_segments_count
            invariant
                i <= page_segments_count <= 255,
                buffer@.len() >= 27 + page_segments_count,
                table == buffer@.subrange(27, 27 + page_segments_count),
                page_body_size == table_sum(table.subrange(0, i as int)),
                page_body_size <= 255 * i,
            decreases page_segments_count - i,
        {
            proof {
                assert(table.subrange(0, i + 1).drop_last() =~= table.subrange(0, i as int));
            }
            page_body_size += buffer[PAGE_HEADER_SIZE + i] as usize;
            i += 1;
        }
        proof {
            assert(table.subrange(0, i as int) =~= table);
        }
        let page_size: usize = PAGE_HEADER_SIZE + page_segments_count + page_body_size;
        if buffer.len() < page_size {
            return Err(OggFormatError("Insufficient page size".to_string()));
        }
        Ok((page_size, page_segments_count))
    }
}

/// Groups the lacing values of a segment table into packet lengths.
fn group_segments(table: &Vec<u8>) -> (lengths: Vec<usize>)
    requires
        table@.len() <= 255,
    ensures
        as_lengths(lengths@) == packet_lengths(table@),
{
    let mut lengths: Vec<usize> = Vec::new();
    let mut accumulated_size: usize = 0;
    let mut i: usize = 0;
    proof {
        assert(table@.subrange(0, table@.len() as int) =~= table@);
        assert(as_lengths(lengths@) + packet_lengths(table@) =~= packet_lengths(table@));
    }
    while i < table.len()
        invariant
            i <= table@.len() <= 255,
            accumulated_size <= 255 * i,
            packet_lengths(table@) == as_lengths(lengths@) + group_from(
                table@.subrange(i as int, table@.len() as int),
                accumulated_size as nat,
            ),
        decreases table@.len() - i,
    {
        let segment_size: u8 = table[i];
        let ghost rest = table@.subrange(i as int, table@.len() as int);
        let ghost before = as_lengths(lengths@);
        proof {
            assert(rest[0] == segment_size);
            assert(rest.drop_first() =~= table@.subrange(i + 1, table@.len() as int));
        }
        if segment_size == 255 {
            accumulated_size += 255;
        } else if accumulated_size > 0 {
            lengths.push(accumulated_size + segment_size as usize);
            accumulated_size = 0;
            proof {
                assert(as_lengths(lengths@) =~= before + seq![lengths@.last() as nat]);
                assert(packet_lengths(table@) =~= as_lengths(lengths@) + group_from(
                    rest.drop_first(),
                    0,
                ));
            }
        } else if segment_size != 0 {
            lengths.push(segment_size as usize);
            proof {
                assert(as_lengths(lengths@) =~= before + seq![segment_size as nat]);
                assert(packet_lengths(table@) =~= as_lengths(lengths@) + group_from(
                    rest.drop_first(),
                    0,
                ));
            }
        }
        i += 1;
    }
    proof {
        assert(table@.subrange(i as int, table@.len() as int) =~= Seq::<u8>::empty());
        assert(packet_lengths(table@) =~= as_lengths(lengths@));
    }
    lengths
}

/// The sum of the first `end` lengths.
fn sum_lengths(lengths: &Vec<usize>, end: usize) -> (sum: usize)
    requires
        end <= lengths@.len(),
        total(as_lengths(lengths@)) <= usize::MAX,
    ensures
        sum == packet_offset(as_lengths(lengths@), end as int),
{
    let mut sum: usize = 0;
    let mut i: usize = 0;
    let ghost all = as_lengths(lengths@);
    while i < end
        invariant
            i <= end <= lengths@.len(),
            all == as_lengths(lengths@),
            total(all) <= usize::MAX,
            sum == total(all.subrange(0, i as int)),
        decreases end - i,
    {
        proof {
            assert(all.subrange(0, i + 1) =~= all.subrange(0, i as int).push(all[i as int]));
            lemma_total_push(all.subrange(0, i as int), all[i as int]);
            lemma_total_prefix(all, i + 1);
        }
        sum += lengths[i];
        i += 1;
    }
    sum
}

impl OggPage {
    /// Reads the page that starts `buffer`. The page keeps its own bytes
    /// and drops what follows them. Fails when the buffer does not start
    /// with a whole page.
    pub fn new(buffer: Vec<u8>) -> (result: Result<Self, OggFormatError>)
        ensures
            result is Ok <==> begins_with_page(buffer@),
            result is Ok ==> result->Ok_0@ == page_of(buffer@) && result->Ok_0.wf(),
    {
        let (page_size, page_segments_count) = Self::validate_page(buffer.as_slice())?;
        let structure_version = read_u8_at(buffer.as_slice(), 4);
        let header_type = read_u8_at(buffer.as_slice(), 5);
        let is_fresh_packet = (header_type & 0x1) == 0;
        let is_bos = (header_type & 0x2) != 0;
        let is_boe = (header_type & 0x4) != 0;
        let absolute_granule_position = read_u64_le_at(buffer.as_slice(), 6);
        let stream_serial_number = read_u32_le_at(buffer.as_slice(), 14);
        let page_sequence_number = read_u32_le_at(buffer.as_slice(), 18);
        let page_checksum = read_u32_le_at(buffer.as_slice(), 22);
        let segment_table = vstd::slice::slice_to_vec(
            vstd::slice::slice_subrange(
                buffer.as_slice(),
                PAGE_HEADER_SIZE,
                PAGE_HEADER_SIZE + page_segments_count,
            ),
        );
        let parsed_segment_table = group_segments(&segment_table);
        let page_segments = parsed_segment_table.len();
        let ghost bytes = buffer@;
        let mut own = buffer;
        own.truncate(page_size);
        let page = Self {
            buffer: own,
            structure_version,
            header_type,
            is_fresh_packet,
            is_bos,
            is_boe,
            absolute_granule_position,
            stream_serial_number,
            page_sequence_number,
            page_checksum,
            page_segments,
            segment_table,
            parsed_segment_table,
            page_size,
        };
        proof {
            lemma_page_of_own_bytes(bytes);
            assert(page@ =~= page_of(bytes));
        }
        Ok(page)
    }

    /// Checks that the buffer is as long as the header, the segment table
    /// and the body that the segment table describes.
    pub fn validate_page_size(&self) -> (result: Result<(), OggFormatError>)
        ensures
            result is Ok <==> self.buffer@.len() == 27 + self.segment_table@.len() + table_sum(
                self.segment_table@,
            ),
    {
        let invalid = "Invalid page size";
        if self.buffer.len() < PAGE_HEADER_SIZE {
            return Err(OggFormatError(invalid.to_string()));
        }
        if self.buffer.len() - PAGE_HEADER_SIZE < self.segment_table.len() {
            return Err(OggFormatError(invalid.to_string()));
        }
        let mut remaining: usize = self.buffer.len() - PAGE_HEADER_SIZE - self.segment_table.len();
        let mut i: usize = 0;
        while i < self.segment_table.len()
            invariant
                i <= self.segment_table@.len(),
                remaining + table_sum(self.segment_table@.subrange(0, i as int)) + 27
                    + self.segment_table@.len() == self.buffer@.len(),
            decreases self.segment_table@.len() - i,
        {
            let value: usize = self.segment_table[i] as usize;
            proof {
                assert(self.segment_table@.subrange(0, i + 1).drop_last()
                    =~= self.segment_table@.subrange(0, i as int));
                lemma_table_sum_concat(
                    self.segment_table@.subrange(0, i + 1),
                    self.segment_table@.subrange(i + 1, self.segment_table@.len() as int),
                );
                assert(self.segment_table@.subrange(0, i + 1) + self.segment_table@.subrange(
                    i + 1,
                    self.segment_table@.len() as int,
                ) =~= self.segment_table@);
            }
            if value > remaining {
                return Err(OggFormatError(invalid.to_string()));
            }
            remaining -= value;
            i += 1;
        }
        proof {
            assert(self.segment_table@.subrange(0, i as int) =~= self.segment_table@);
        }
        if remaining != 0 {
            return Err(OggFormatError(invalid.to_string()));
        }
        Ok(())
    }

    /// What follows from a page being well formed: its packets lie inside
    /// its body, one after the other, and none is empty.
    pub proof fn lemma_packets_in_body(&self)
        requires
            self.wf(),
        ensures
            self.segment_table@.len() <= 255,
            self.parsed_segment_table@.len() <= 255,
            self.page_segments == self.parsed_segment_table@.len(),
            self.buffer@.len() == 27 + self.segment_table@.len() + table_sum(self.segment_table@),
            body_of(self@).len() == table_sum(self.segment_table@),
            table_sum(self.segment_table@) <= 255 * 255,
            total(self@.parsed_segment_table) <= body_of(self@).len(),
            all_positive(self@.parsed_segment_table),
            self@.parsed_segment_table.len() == self.parsed_segment_table@.len(),
            self@.parsed_segment_table == packet_lengths(self.segment_table@),
    {
        lemma_group_bounds(self.segment_table@, 0);
        lemma_table_sum_bound(self.segment_table@);
        assert(255 * self.segment_table@.len() <= 255 * 255) by (nonlinear_arith)
            requires
                self.segment_table@.len() <= 255,
        ;
    }

    /// The bytes of the packet at `index`. Fails when the page has no such
    /// packet.
    pub fn get_page_segment(&self, index: usize) -> (result: Result<Vec<u8>, OggFormatError>)
        requires
            self.wf(),
        ensures
            result is Ok <==> index < self@.parsed_segment_table.len(),
            result is Ok ==> result->Ok_0@ == packet_bytes(self@, index as int),
    {
        proof {
            self.lemma_packets_in_body();
        }
        if index >= self.parsed_segment_table.len() {
            return Err(OggFormatError("Segment start index out of range".to_string()));
        }
        let accumulated_page_segment_size = sum_lengths(&self.parsed_segment_table, index);
        let segment_length = self.parsed_segment_table[index];
        proof {
            let all = self@.parsed_segment_table;
            lemma_total_prefix(all, index + 1);
            assert(all.subrange(0, index + 1) =~= all.subrange(0, index as int).push(
                all[index as int],
            ));
            lemma_total_push(all.subrange(0, index as int), all[index as int]);
        }
        let body_start = PAGE_HEADER_SIZE + self.segment_table.len();
        let start = body_start + accumulated_page_segment_size;
        let segment = vstd::slice::slice_to_vec(
            vstd::slice::slice_subrange(self.buffer.as_slice(), start, start + segment_length),
        );
        proof {
            assert(segment@ =~= packet_bytes(self@, index as int));
        }
        Ok(segment)
    }

    /// The segment table for a list of packet lengths: for each packet a
    /// 255 for every full 255 bytes, then the remainder.
    pub fn create_laced_vec(input: &[usize]) -> (table: Vec<u8>)
        ensures
            table@ == lacing(as_lengths(input@)),
    {
        let mut table: Vec<u8> = Vec::new();
        let ghost all = as_lengths(input@);
        let mut i: usize = 0;
        while i < input.len()
            invariant
                i <= input@.len(),
                all == as_lengths(input@),
                table@ == lacing(all.subrange(0, i as int)),
            decreases input@.len() - i,
        {
            let mut value: usize = input[i];
            let ghost before = table@;
            let ghost length = value as nat;
            while value >= 255
                invariant
                    value <= length,
                    (length - value) % 255 == 0,
                    table@ == before + Seq::new(((length - value) / 255) as nat, |k: int| 255u8),
                decreases value,
            {
                let ghost full = Seq::new(((length - value) / 255) as nat, |k: int| 255u8);
                table.push(255);
                value -= 255;
                proof {
                    assert(table@ =~= before + Seq::new(
                        ((length - value) / 255) as nat,
                        |k: int| 255u8,
                    ));
                }
            }
            table.push(value as u8);
            proof {
                assert(length / 255 == (length - value) / 255 && length % 255 == value);
                assert(table@ =~= before + lace_one(length));
                lemma_lacing_push(all.subrange(0, i as int), length);
                assert(all.subrange(0, i + 1) =~= all.subrange(0, i as int).push(length));
            }
            i += 1;
        }
        proof {
            assert(all.subrange(0, i as int) =~= all);
        }
        table
    }
}

/// The bytes of a page with the checksum of the page written into its
/// checksum field.
pub open spec fn sealed(bytes: Seq<u8>) -> Seq<u8>
    recommends
        bytes.len() >= 26,
{
    bytes.subrange(0, 22) + le_bytes_u32(page_crc(bytes)) + bytes.subrange(
        26,
        bytes.len() as int,
    )
}

/// Writing the checksum changes neither the checksum of the bytes nor any
/// field of the page but the checksum itself.
pub proof fn lemma_sealed(bytes: Seq<u8>)
    requires
        bytes.len() >= 26,
    ensures
        sealed(bytes).len() == bytes.len(),
        page_crc(sealed(bytes)) == page_crc(bytes),
        le_u32(sealed(bytes).subrange(22, 26)) == page_crc(bytes),
        begins_with_page(bytes) ==> begins_with_page(sealed(bytes)) && page_length(sealed(bytes))
            == page_length(bytes),
        begins_with_page(bytes) ==> page_of(sealed(bytes)) == (OggPageView {
            buffer: sealed(bytes).subrange(0, page_length(bytes) as int),
            page_checksum: page_crc(bytes),
            ..page_of(bytes)
        }),
{
    let after = sealed(bytes);
    lemma_le_u32(page_crc(bytes), bytes);
    assert(after.subrange(0, 22) =~= bytes.subrange(0, 22));
    assert(after.subrange(26, after.len() as int) =~= bytes.subrange(26, bytes.len() as int));
    assert(after.subrange(22, 26) =~= le_bytes_u32(page_crc(bytes)));
    if begins_with_page(bytes) {
        assert(segment_table_of(after) =~= segment_table_of(bytes));
        assert(after.subrange(6, 14) =~= bytes.subrange(6, 14));
        assert(after.subrange(14, 18) =~= bytes.subrange(14, 18));
        assert(after.subrange(18, 22) =~= bytes.subrange(18, 22));
    }
}

impl OggPage {
    /// The checksum that the bytes of the page yield: the CRC over the
    /// page with four zero bytes standing in for the checksum field.
    pub fn calculate_page_checksum(&self) -> (checksum: u32)
        requires
            self.buffer@.len() >= 26,
        ensures
            checksum == page_crc(self.buffer@),
    {
        let table = crc_table();
        let zeros: Vec<u8> = vec![0u8, 0u8, 0u8, 0u8];
        let mut checksum: u32 = crc_update(&table, self.buffer.as_slice(), 0, 0, 22);
        checksum = crc_update(&table, zeros.as_slice(), checksum, 0, 4);
        proof {
            assert(zeros@.subrange(0, 4) =~= seq![0u8, 0u8, 0u8, 0u8]);
        }
        checksum = crc_update(&table, self.buffer.as_slice(), checksum, 26, self.buffer.len());
        checksum
    }

    /// Computes the checksum of the page and stores it, in the field and
    /// in the bytes of the page.
    pub fn update_page_checksum(&mut self)
        requires
            old(self).buffer@.len() >= 26,
        ensures
            final(self).buffer@ == sealed(old(self).buffer@),
            final(self)@ == (OggPageView {
                buffer: sealed(old(self).buffer@),
                page_checksum: page_crc(old(self).buffer@),
                ..old(self)@
            }),
            final(self).checksum_ok(),
            old(self).wf() ==> final(self).wf(),
    {
        let page_checksum = self.calculate_page_checksum();
        proof {
            lemma_sealed(self.buffer@);
        }
        write_u32_le_at(&mut self.buffer, 22, page_checksum);
        self.page_checksum = page_checksum;
        proof {
            if old(self).wf() {
                assert(sealed(old(self).buffer@).subrange(0, page_length(old(self).buffer@) as int)
                    =~= sealed(old(self).buffer@));
            }
        }
    }

    /// Whether the stored checksum is the one that the bytes of the page
    /// yield.
    pub fn if_page_checksum_correct(&self) -> (correct: bool)
        requires
            self.buffer@.len() >= 26,
        ensures
            correct == self.checksum_ok(),
    {
        self.calculate_page_checksum() == self.page_checksum
    }
}

/// The views of a list of segments.
pub open spec fn segment_views(segments: Seq<Vec<u8>>) -> Seq<Seq<u8>> {
    segments.map_values(|s: Vec<u8>| s@)
}

/// The lengths of a list of segments.
pub open spec fn lengths_of(segments: Seq<Seq<u8>>) -> Seq<nat> {
    segments.map_values(|s: Seq<u8>| s.len())
}

/// The bytes of a list of segments, one segment after the other.
pub open spec fn joined(segments: Seq<Seq<u8>>) -> Seq<u8>
    decreases segments.len(),
{
    if segments.len() == 0 {
        Seq::empty()
    } else {
        joined(segments.drop_last()) + segments.last()
    }
}

/// The bytes of a page rebuilt around a new list of packet lengths and a
/// new body: the first 26 bytes of the old header, the number of lacing
/// values, the segment table written for the lengths, and the body.
pub open spec fn rebuilt(page: OggPageView, lengths: Seq<nat>, body: Seq<u8>) -> Seq<u8> {
    page.buffer.subrange(0, 26) + seq![lacing(lengths).len() as u8] + lacing(lengths) + body
}

/// The packet lengths of a page without `count` packets from `index` on.
pub open spec fn lengths_after_removal(lengths: Seq<nat>, index: int, count: int) -> Seq<nat> {
    lengths.subrange(0, index) + lengths.subrange(index + count, lengths.len() as int)
}

/// The packet lengths of a page with new packets put in before `index`.
pub open spec fn lengths_after_insertion(lengths: Seq<nat>, added: Seq<nat>, index: int) -> Seq<
    nat,
> {
    lengths.subrange(0, index) + added + lengths.subrange(index, lengths.len() as int)
}

/// The bytes of a page rebuilt without `count` packets from `index` on.
pub open spec fn removal(page: OggPageView, index: int, count: int) -> Seq<u8> {
    let lengths = page.parsed_segment_table;
    let body = body_of(page);
    rebuilt(
        page,
        lengths_after_removal(lengths, index, count),
        body.subrange(0, packet_offset(lengths, index) as int) + body.subrange(
            packet_offset(lengths, index + count) as int,
            body.len() as int,
        ),
    )
}

/// The bytes of a page rebuilt with `segments` put in as new packets
/// before the packet at `index`.
pub open spec fn insertion(page: OggPageView, segments: Seq<Seq<u8>>, index: int) -> Seq<u8> {
    let lengths = page.parsed_segment_table;
    let body = body_of(page);
    let at = packet_offset(lengths, index) as int;
    rebuilt(
        page,
        lengths_after_insertion(lengths, lengths_of(segments), index),
        body.subrange(0, at) + joined(segments) + body.subrange(at, body.len() as int),
    )
}

/// The bytes of a page rebuilt with `segment` in place of the packet at
/// `index`.
pub open spec fn replacement(page: OggPageView, segment: Seq<u8>, index: int) -> Seq<u8> {
    let lengths = page.parsed_segment_table;
    let body = body_of(page);
    let at = packet_offset(lengths, index) as int;
    rebuilt(
        page,
        lengths.update(index, segment.len()),
        body.subrange(0, at) + segment + body.subrange(at + lengths[index], body.len() as int),
    )
}

/// Segments, one after the other, are as long as their lengths sum to.
pub proof fn lemma_joined_len(segments: Seq<Seq<u8>>)
    ensures
        joined(segments).len() == total(lengths_of(segments)),
    decreases segments.len(),
{
    if segments.len() > 0 {
        lemma_joined_len(segments.drop_last());
        assert(lengths_of(segments).drop_last() =~= lengths_of(segments.drop_last()));
    }
}

/// Appends `source[from..to)` to `target`.
pub(crate) fn append_range<T: Copy>(target: &mut Vec<T>, source: &[T], from: usize, to: usize)
    requires
        from <= to <= source@.len(),
    ensures
        final(target)@ == old(target)@ + source@.subrange(from as int, to as int),
{
    let mut i: usize = from;
    while i < to
        invariant
            from <= i <= to <= source@.len(),
            target@ == old(target)@ + source@.subrange(from as int, i as int),
        decreases to - i,
    {
        target.push(source[i]);
        proof {
            assert(source@.subrange(from as int, i + 1) =~= source@.subrange(
                from as int,
                i as int,
            ).push(source@[i as int]));
        }
        i += 1;
    }
    proof {
        assert(old(target)@ + source@.subrange(from as int, from as int) =~= old(target)@);
    }
}

/// The offsets of packets grow with their index by the lengths of the
/// packets between them, and none lies beyond the sum of all lengths.
pub proof fn lemma_offsets(lengths: Seq<nat>, from: int, to: int)
    requires
        0 <= from <= to <= lengths.len(),
    ensures
        packet_offset(lengths, to) == packet_offset(lengths, from) + total(
            lengths.subrange(from, to),
        ),
        packet_offset(lengths, to) <= total(lengths),
{
    lemma_total_concat(lengths.subrange(0, from), lengths.subrange(from, to));
    assert(lengths.subrange(0, from) + lengths.subrange(from, to) =~= lengths.subrange(0, to));
    lemma_total_prefix(lengths, to);
}

/// A page rebuilt around packet lengths that fit into a segment table, and
/// a body that holds at least their bytes, starts with a whole page whose
/// segment table is the one written for the lengths.
pub proof fn lemma_rebuilt(page: OggPageView, lengths: Seq<nat>, body: Seq<u8>)
    requires
        page.buffer.len() >= 26,
        has_capture_pattern(page.buffer),
        lacing(lengths).len() <= 255,
        total(lengths) <= body.len(),
    ensures
        rebuilt(page, lengths, body).len() == 27 + lacing(lengths).len() + body.len(),
        begins_with_page(rebuilt(page, lengths, body)),
        segment_table_of(rebuilt(page, lengths, body)) == lacing(lengths),
        page_length(rebuilt(page, lengths, body)) == 27 + lacing(lengths).len() + total(lengths),
        page_of(rebuilt(page, lengths, body)).parsed_segment_table == lengths.filter(
            |l: nat| l > 0,
        ),
        all_positive(lengths) ==> page_of(rebuilt(page, lengths, body)).parsed_segment_table
            == lengths,
{
    let bytes = rebuilt(page, lengths, body);
    assert(bytes[26] == lacing(lengths).len() as u8);
    assert(segment_table_of(bytes) =~= lacing(lengths));
    lemma_lacing_sum(lengths);
    lemma_lacing_drops_zeros(lengths);
    if all_positive(lengths) {
        lemma_lacing_round_trip(lengths);
    }
}

/// A page with the checksum of its bytes stored in it.
pub open spec fn with_checksum(page: OggPageView) -> OggPageView {
    OggPageView { buffer: sealed(page.buffer), page_checksum: page_crc(page.buffer), ..page }
}

impl OggPage {
    /// The bytes of this page rebuilt without `n` packets from `index` on:
    /// their bytes leave the body and the segment table is written anew.
    /// Fails when the page has no packet at `index`, when `n` is zero, and
    /// when fewer than `n` packets follow from `index` on.
    pub fn remove_page_segment_and_get_raw_result(&self, index: usize, n: usize) -> (result:
        Result<Vec<u8>, OggFormatError>)
        requires
            self.wf(),
        ensures
            result is Ok <==> index < self@.parsed_segment_table.len() && n > 0 && index + n
                <= self@.parsed_segment_table.len(),
            result is Ok ==> result->Ok_0@ == removal(self@, index as int, n as int),
    {
        proof {
            self.lemma_packets_in_body();
        }
        let count = self.parsed_segment_table.len();
        if index >= count {
            return Err(OggFormatError("Segment start index out of range".to_string()));
        }
        if n == 0 {
            return Err(
                OggFormatError("Number of segments to remove must be greater than 0".to_string()),
            );
        }
        if n > count - index {
            return Err(OggFormatError("Segment end index out of range".to_string()));
        }
        let ghost lengths = self@.parsed_segment_table;
        let ghost kept = lengths_after_removal(lengths, index as int, n as int);
        proof {
            lemma_offsets(lengths, index as int, index + n);
            lemma_offsets(lengths, 0, index as int);
            lemma_regroup_fits(self.segment_table@, 0);
            let first = lengths.subrange(0, index as int);
            let middle = lengths.subrange(index as int, index + n);
            let last = lengths.subrange(index + n, lengths.len() as int);
            assert(lengths =~= first + (middle + last));
            lemma_lacing_concat(first, middle + last);
            lemma_lacing_concat(middle, last);
            lemma_lacing_concat(first, last);
        }
        let remove_from = sum_lengths(&self.parsed_segment_table, index);
        let remove_to = sum_lengths(&self.parsed_segment_table, index + n);

        let mut new_parsed_segment_table: Vec<usize> = Vec::new();
        append_range(&mut new_parsed_segment_table, self.parsed_segment_table.as_slice(), 0, index);
        append_range(
            &mut new_parsed_segment_table,
            self.parsed_segment_table.as_slice(),
            index + n,
            count,
        );
        proof {
            assert(as_lengths(new_parsed_segment_table@) =~= kept);
        }
        let new_segment_table = Self::create_laced_vec(new_parsed_segment_table.as_slice());

        let body_start = PAGE_HEADER_SIZE + self.segment_table.len();
        let mut new_buffer: Vec<u8> = Vec::new();
        append_range(&mut new_buffer, self.buffer.as_slice(), 0, 26);
        new_buffer.push(new_segment_table.len() as u8);
        append_range(&mut new_buffer, new_segment_table.as_slice(), 0, new_segment_table.len());
        append_range(&mut new_buffer, self.buffer.as_slice(), body_start, body_start + remove_from);
        append_range(
            &mut new_buffer,
            self.buffer.as_slice(),
            body_start + remove_to,
            self.buffer.len(),
        );
        proof {
            assert(new_buffer@ =~= removal(self@, index as int, n as int));
        }
        Ok(new_buffer)
    }

    /// The bytes of this page rebuilt with `segments` put in as new
    /// packets before the packet at `index`, or after the last packet when
    /// `index` is the number of packets. Fails when `index` is larger than
    /// that, and when the new segment table would hold more than 255
    /// lacing values.
    pub fn add_page_segment_and_get_raw_result(&self, segments: &[Vec<u8>], index: usize) -> (result:
        Result<Vec<u8>, OggFormatError>)
        requires
            self.wf(),
        ensures
            result is Ok <==> index <= self@.parsed_segment_table.len() && lacing(
                lengths_after_insertion(
                    self@.parsed_segment_table,
                    lengths_of(segment_views(segments@)),
                    index as int,
                ),
            ).len() <= 255,
            result is Ok ==> result->Ok_0@ == insertion(
                self@,
                segment_views(segments@),
                index as int,
            ),
    {
        proof {
            self.lemma_packets_in_body();
        }
        let count = self.parsed_segment_table.len();
        if index > count {
            return Err(OggFormatError("Segment start index out of range".to_string()));
        }
        let ghost lengths = self@.parsed_segment_table;
        let ghost views = segment_views(segments@);
        let ghost added = lengths_of(views);
        let ghost grown = lengths_after_insertion(lengths, added, index as int);
        proof {
            lemma_offsets(lengths, 0, index as int);
        }
        let insert_at = sum_lengths(&self.parsed_segment_table, index);

        let mut new_parsed_segment_table: Vec<usize> = Vec::new();
        append_range(&mut new_parsed_segment_table, self.parsed_segment_table.as_slice(), 0, index);
        let ghost first = new_parsed_segment_table@;
        let mut k: usize = 0;
        while k < segments.len()
            invariant
                k <= segments@.len(),
                added == lengths_of(segment_views(segments@)),
                as_lengths(new_parsed_segment_table@) == as_lengths(first) + added.subrange(
                    0,
                    k as int,
                ),
            decreases segments@.len() - k,
        {
            let ghost before = as_lengths(new_parsed_segment_table@);
            new_parsed_segment_table.push(segments[k].len());
            proof {
                assert(as_lengths(new_parsed_segment_table@) =~= before.push(added[k as int]));
                assert(added.subrange(0, k + 1) =~= added.subrange(0, k as int).push(
                    added[k as int],
                ));
            }
            k += 1;
        }
        let ghost middle = new_parsed_segment_table@;
        append_range(
            &mut new_parsed_segment_table,
            self.parsed_segment_table.as_slice(),
            index,
            count,
        );
        proof {
            let last = self.parsed_segment_table@.subrange(index as int, count as int);
            assert(added.subrange(0, k as int) =~= added);
            assert(as_lengths(first) =~= lengths.subrange(0, index as int));
            assert(as_lengths(last) =~= lengths.subrange(index as int, lengths.len() as int));
            assert(as_lengths(middle + last) =~= as_lengths(middle) + as_lengths(last));
            assert(as_lengths(new_parsed_segment_table@) =~= grown);
        }
        let new_segment_table = Self::create_laced_vec(new_parsed_segment_table.as_slice());
        if new_segment_table.len() > 255 {
            return Err(OggFormatError("Segment table overflow".to_string()));
        }
        let body_start = PAGE_HEADER_SIZE + self.segment_table.len();
        let mut new_buffer: Vec<u8> = Vec::new();
        append_range(&mut new_buffer, self.buffer.as_slice(), 0, 26);
        new_buffer.push(new_segment_table.len() as u8);
        append_range(&mut new_buffer, new_segment_table.as_slice(), 0, new_segment_table.len());
        append_range(&mut new_buffer, self.buffer.as_slice(), body_start, body_start + insert_at);
        let ghost head = new_buffer@;
        let mut j: usize = 0;
        while j < segments.len()
            invariant
                j <= segments@.len(),
                views == segment_views(segments@),
                new_buffer@ == head + joined(views.subrange(0, j as int)),
            decreases segments@.len() - j,
        {
            append_range(&mut new_buffer, segments[j].as_slice(), 0, segments[j].len());
            proof {
                assert(segments@[j as int]@.subrange(0, segments@[j as int]@.len() as int)
                    =~= views[j as int]);
                assert(views.subrange(0, j + 1).drop_last() =~= views.subrange(0, j as int));
                assert(new_buffer@ =~= head + joined(views.subrange(0, j + 1)));
            }
            j += 1;
        }
        append_range(
            &mut new_buffer,
            self.buffer.as_slice(),
            body_start + insert_at,
            self.buffer.len(),
        );
        proof {
            assert(views.subrange(0, j as int) =~= views);
            assert(new_buffer@ =~= insertion(self@, views, index as int));
        }
        Ok(new_buffer)
    }

    /// The bytes of this page rebuilt with `segment` in place of the
    /// packet at `index`. Fails when the page has no packet at `index`,
    /// and when the new segment table would hold more than 255 lacing
    /// values.
    pub fn replace_page_segment_and_get_raw_result(&self, segment: Vec<u8>, index: usize) -> (result:
        Result<Vec<u8>, OggFormatError>)
        requires
            self.wf(),
        ensures
            result is Ok <==> index < self@.parsed_segment_table.len() && lacing(
                self@.parsed_segment_table.update(index as int, segment@.len()),
            ).len() <= 255,
            result is Ok ==> result->Ok_0@ == replacement(self@, segment@, index as int),
    {
        proof {
            self.lemma_packets_in_body();
        }
        let count = self.parsed_segment_table.len();
        if index >= count {
            return Err(OggFormatError("Segment start index out of range".to_string()));
        }
        let ghost lengths = self@.parsed_segment_table;
        proof {
            lemma_offsets(lengths, 0, index as int);
            lemma_offsets(lengths, index as int, index + 1);
            lemma_total_one(lengths[index as int]);
            assert(lengths.subrange(index as int, index + 1) =~= seq![lengths[index as int]]);
        }
        let old_segment_length = self.parsed_segment_table[index];
        let replace_at = sum_lengths(&self.parsed_segment_table, index);

        let mut new_parsed_segment_table: Vec<usize> = Vec::new();
        append_range(&mut new_parsed_segment_table, self.parsed_segment_table.as_slice(), 0, index);
        new_parsed_segment_table.push(segment.len());
        append_range(
            &mut new_parsed_segment_table,
            self.parsed_segment_table.as_slice(),
            index + 1,
            count,
        );
        proof {
            assert(as_lengths(new_parsed_segment_table@) =~= lengths.update(
                index as int,
                segment@.len(),
            ));
        }
        let new_segment_table = Self::create_laced_vec(new_parsed_segment_table.as_slice());
        if new_segment_table.len() > 255 {
            return Err(OggFormatError("Segment table overflow".to_string()));
        }
        let body_start = PAGE_HEADER_SIZE + self.segment_table.len();
        let mut new_buffer: Vec<u8> = Vec::new();
        append_range(&mut new_buffer, self.buffer.as_slice(), 0, 26);
        new_buffer.push(new_segment_table.len() as u8);
        append_range(&mut new_buffer, new_segment_table.as_slice(), 0, new_segment_table.len());
        append_range(&mut new_buffer, self.buffer.as_slice(), body_start, body_start + replace_at);
        append_range(&mut new_buffer, segment.as_slice(), 0, segment.len());
        append_range(
            &mut new_buffer,
            self.buffer.as_slice(),
            body_start + replace_at + old_segment_length,
            self.buffer.len(),
        );
        proof {
            assert(segment@.subrange(0, segment@.len() as int) =~= segment@);
            assert(new_buffer@ =~= replacement(self@, segment@, index as int));
        }
        Ok(new_buffer)
    }
}

/// Removing packets from a well-formed page leaves bytes that start with
/// a whole page, whose packets are those that stay.
pub proof fn lemma_removal(page: &OggPage, index: int, count: int)
    requires
        page.wf(),
        0 <= index,
        0 < count,
        index + count <= page@.parsed_segment_table.len(),
    ensures
        begins_with_page(removal(page@, index, count)),
        page_of(removal(page@, index, count)).parsed_segment_table == lengths_after_removal(
            page@.parsed_segment_table,
            index,
            count,
        ),
{
    page.lemma_packets_in_body();
    let lengths = page@.parsed_segment_table;
    let kept = lengths_after_removal(lengths, index, count);
    let body = body_of(page@);
    let first = lengths.subrange(0, index);
    let middle = lengths.subrange(index, index + count);
    let last = lengths.subrange(index + count, lengths.len() as int);
    lemma_offsets(lengths, index, index + count);
    lemma_offsets(lengths, 0, index);
    lemma_regroup_fits(page.segment_table@, 0);
    assert(lengths =~= first + (middle + last));
    lemma_lacing_concat(first, middle + last);
    lemma_lacing_concat(middle, last);
    lemma_lacing_concat(first, last);
    lemma_total_concat(first, middle + last);
    lemma_total_concat(middle, last);
    lemma_total_concat(first, last);
    assert(all_positive(kept));
    lemma_rebuilt(
        page@,
        kept,
        body.subrange(0, packet_offset(lengths, index) as int) + body.subrange(
            packet_offset(lengths, index + count) as int,
            body.len() as int,
        ),
    );
}

/// Putting new packets into a well-formed page leaves bytes that start
/// with a whole page, provided that the new segment table is not too long;
/// its packets are the old and the new ones that are not empty.
pub proof fn lemma_insertion(page: &OggPage, segments: Seq<Seq<u8>>, index: int)
    requires
        page.wf(),
        0 <= index <= page@.parsed_segment_table.len(),
        lacing(
            lengths_after_insertion(page@.parsed_segment_table, lengths_of(segments), index),
        ).len() <= 255,
    ensures
        begins_with_page(insertion(page@, segments, index)),
        page_of(insertion(page@, segments, index)).parsed_segment_table
            == lengths_after_insertion(
            page@.parsed_segment_table,
            lengths_of(segments),
            index,
        ).filter(|l: nat| l > 0),
        all_positive(lengths_of(segments)) ==> page_of(
            insertion(page@, segments, index),
        ).parsed_segment_table == lengths_after_insertion(
            page@.parsed_segment_table,
            lengths_of(segments),
            index,
        ),
{
    page.lemma_packets_in_body();
    let lengths = page@.parsed_segment_table;
    let added = lengths_of(segments);
    let grown = lengths_after_insertion(lengths, added, index);
    let body = body_of(page@);
    let at = packet_offset(lengths, index) as int;
    let first = lengths.subrange(0, index);
    let last = lengths.subrange(index, lengths.len() as int);
    lemma_offsets(lengths, 0, index);
    lemma_total_prefix(lengths, index);
    lemma_total_concat(first + added, last);
    lemma_total_concat(first, added);
    lemma_joined_len(segments);
    if all_positive(added) {
        assert(all_positive(grown));
    }
    lemma_rebuilt(
        page@,
        grown,
        body.subrange(0, at) + joined(segments) + body.subrange(at, body.len() as int),
    );
}

/// Putting a new packet in place of one of a well-formed page leaves bytes
/// that start with a whole page, provided that the new segment table is
/// not too long; its packets are the old ones and the new one, unless that
/// is empty.
pub proof fn lemma_replacement(page: &OggPage, segment: Seq<u8>, index: int)
    requires
        page.wf(),
        0 <= index < page@.parsed_segment_table.len(),
        lacing(page@.parsed_segment_table.update(index, segment.len())).len() <= 255,
    ensures
        begins_with_page(replacement(page@, segment, index)),
        page_of(replacement(page@, segment, index)).parsed_segment_table
            == page@.parsed_segment_table.update(index, segment.len()).filter(|l: nat| l > 0),
        segment.len() > 0 ==> page_of(replacement(page@, segment, index)).parsed_segment_table
            == page@.parsed_segment_table.update(index, segment.len()),
{
    page.lemma_packets_in_body();
    let lengths = page@.parsed_segment_table;
    let changed = lengths.update(index, segment.len());
    let body = body_of(page@);
    let at = packet_offset(lengths, index) as int;
    let first = lengths.subrange(0, index);
    let last = lengths.subrange(index + 1, lengths.len() as int);
    lemma_offsets(lengths, 0, index);
    lemma_offsets(lengths, index, index + 1);
    assert(lengths.subrange(index, index + 1) =~= seq![lengths[index]]);
    lemma_total_one(lengths[index]);
    lemma_total_one(segment.len());
    assert(lengths =~= first + seq![lengths[index]] + last);
    assert(changed =~= first + seq![segment.len()] + last);
    lemma_total_concat(first + seq![lengths[index]], last);
    lemma_total_concat(first, seq![lengths[index]]);
    lemma_total_concat(first + seq![segment.len()], last);
    lemma_total_concat(first, seq![segment.len()]);
    if segment.len() > 0 {
        assert(all_positive(changed));
    }
    lemma_rebuilt(
        page@,
        changed,
        body.subrange(0, at) + segment + body.subrange(at + lengths[index], body.len() as int),
    );
}

impl OggPage {
    /// This page without `n` packets from `index` on, with its checksum
    /// computed anew. Fails as the rebuilding of the bytes does.
    pub fn remove_page_segment(&self, index: usize, n: usize) -> (result: Result<
        Self,
        OggFormatError,
    >)
        requires
            self.wf(),
        ensures
            result is Ok <==> index < self@.parsed_segment_table.len() && n > 0 && index + n
                <= self@.parsed_segment_table.len(),
            result is Ok ==> {
                &&& result->Ok_0@ == with_checksum(
                    page_of(removal(self@, index as int, n as int)),
                )
                &&& result->Ok_0.wf()
                &&& result->Ok_0.checksum_ok()
                &&& result->Ok_0@.parsed_segment_table == lengths_after_removal(
                    self@.parsed_segment_table,
                    index as int,
                    n as int,
                )
                &&& result->Ok_0@.page_segments == self@.page_segments - n
            },
    {
        let new_buffer = self.remove_page_segment_and_get_raw_result(index, n)?;
        proof {
            lemma_removal(self, index as int, n as int);
        }
        let mut new_page = Self::new(new_buffer)?;
        new_page.update_page_checksum();
        Ok(new_page)
    }

    /// This page with `segments` put in as new packets before the packet
    /// at `index`, with its checksum computed anew. Fails as the
    /// rebuilding of the bytes does.
    pub fn add_page_segment(&self, segments: &[Vec<u8>], index: usize) -> (result: Result<
        Self,
        OggFormatError,
    >)
        requires
            self.wf(),
        ensures
            result is Ok <==> index <= self@.parsed_segment_table.len() && lacing(
                lengths_after_insertion(
                    self@.parsed_segment_table,
                    lengths_of(segment_views(segments@)),
                    index as int,
                ),
            ).len() <= 255,
            result is Ok ==> {
                &&& result->Ok_0@ == with_checksum(
                    page_of(insertion(self@, segment_views(segments@), index as int)),
                )
                &&& result->Ok_0.wf()
                &&& result->Ok_0.checksum_ok()
                &&& result->Ok_0@.parsed_segment_table == lengths_after_insertion(
                    self@.parsed_segment_table,
                    lengths_of(segment_views(segments@)),
                    index as int,
                ).filter(|l: nat| l > 0)
                &&& all_positive(lengths_of(segment_views(segments@))) ==> {
                    &&& result->Ok_0@.parsed_segment_table == lengths_after_insertion(
                        self@.parsed_segment_table,
                        lengths_of(segment_views(segments@)),
                        index as int,
                    )
                    &&& result->Ok_0@.page_segments == self@.page_segments + segments@.len()
                }
            },
    {
        let new_buffer = self.add_page_segment_and_get_raw_result(segments, index)?;
        proof {
            lemma_insertion(self, segment_views(segments@), index as int);
        }
        let mut new_page = Self::new(new_buffer)?;
        new_page.update_page_checksum();
        Ok(new_page)
    }

    /// This page with `segment` in place of the packet at `index`, with
    /// its checksum computed anew. Fails as the rebuilding of the bytes
    /// does.
    pub fn replace_page_segment(&self, segment: Vec<u8>, index: usize) -> (result: Result<
        Self,
        OggFormatError,
    >)
        requires
            self.wf(),
        ensures
            result is Ok <==> index < self@.parsed_segment_table.len() && lacing(
                self@.parsed_segment_table.update(index as int, segment@.len()),
            ).len() <= 255,
            result is Ok ==> {
                &&& result->Ok_0@ == with_checksum(
                    page_of(replacement(self@, segment@, index as int)),
                )
                &&& result->Ok_0.wf()
                &&& result->Ok_0.checksum_ok()
                &&& result->Ok_0@.parsed_segment_table == self@.parsed_segment_table.update(
                    index as int,
                    segment@.len(),
                ).filter(|l: nat| l > 0)
                &&& segment@.len() > 0 ==> {
                    &&& result->Ok_0@.parsed_segment_table
                        == self@.parsed_segment_table.update(index as int, segment@.len())
                    &&& result->Ok_0@.page_segments == self@.page_segments
                }
            },
    {
        let ghost new_bytes = segment@;
        let new_buffer = self.replace_page_segment_and_get_raw_result(segment, index)?;
        proof {
            lemma_replacement(self, new_bytes, index as int);
        }
        let mut new_page = Self::new(new_buffer)?;
        new_page.update_page_checksum();
        Ok(new_page)
    }
}

/// The bytes that a page is written as: the capture pattern, the fields of
/// the header in their order, the segment table behind its length, and the
/// body.
pub open spec fn serialized(page: OggPageView) -> Seq<u8> {
    seq![0x4fu8, 0x67u8, 0x67u8, 0x53u8, page.structure_version, page.header_type] + le_bytes_u64(
        page.absolute_granule_position,
    ) + le_bytes_u32(page.stream_serial_number) + le_bytes_u32(page.page_sequence_number)
        + le_bytes_u32(page.page_checksum) + seq![page.segment_table.len() as u8]
        + page.segment_table + body_of(page)
}

/// The bytes of a well-formed page are the bytes that its fields and its
/// body are written as.
pub proof fn lemma_serialized(page: &OggPage)
    requires
        page.wf(),
    ensures
        serialized(page@) == page.buffer@,
{
    let bytes = page.buffer@;
    page.lemma_packets_in_body();
    lemma_le_bytes_u64(bytes.subrange(6, 14));
    lemma_le_bytes_u32(bytes.subrange(14, 18));
    lemma_le_bytes_u32(bytes.subrange(18, 22));
    lemma_le_bytes_u32(bytes.subrange(22, 26));
    lemma_le_u32(0, bytes.subrange(14, 18));
    lemma_le_u32(0, bytes.subrange(18, 22));
    lemma_le_u32(0, bytes.subrange(22, 26));
    let head = seq![0x4fu8, 0x67u8, 0x67u8, 0x53u8, page.structure_version, page.header_type];
    assert(head =~= bytes.subrange(0, 6));
    assert(seq![page.segment_table@.len() as u8] =~= bytes.subrange(26, 27));
    assert(page.segment_table@ == bytes.subrange(27, 27 + page.segment_table@.len() as int));
    assert(bytes.subrange(0, 6) + bytes.subrange(6, 14) + bytes.subrange(14, 18) + bytes.subrange(
        18,
        22,
    ) + bytes.subrange(22, 26) + bytes.subrange(26, 27) + bytes.subrange(
        27,
        27 + page.segment_table@.len() as int,
    ) + body_of(page@) =~= bytes);
}

/// Reading the bytes that a well-formed page is written as gives that page
/// again, with every field and every byte of its body.
pub proof fn lemma_parse_round_trip(page: &OggPage)
    requires
        page.wf(),
    ensures
        begins_with_page(serialized(page@)),
        page_of(serialized(page@)) == page@,
{
    lemma_serialized(page);
}

impl Clone for OggPage {
    fn clone(&self) -> (copy: Self)
        ensures
            copy@ == self@,
            copy.buffer@ == self.buffer@,
            copy.wf() == self.wf(),
    {
        let mut buffer: Vec<u8> = Vec::new();
        append_range(&mut buffer, self.buffer.as_slice(), 0, self.buffer.len());
        let mut segment_table: Vec<u8> = Vec::new();
        append_range(&mut segment_table, self.segment_table.as_slice(), 0, self.segment_table.len());
        let mut parsed_segment_table: Vec<usize> = Vec::new();
        append_range(
            &mut parsed_segment_table,
            self.parsed_segment_table.as_slice(),
            0,
            self.parsed_segment_table.len(),
        );
        proof {
            assert(buffer@ =~= self.buffer@);
            assert(segment_table@ =~= self.segment_table@);
            assert(parsed_segment_table@ =~= self.parsed_segment_table@);
        }
        Self {
            buffer,
            structure_version: self.structure_version,
            header_type: self.header_type,
            is_fresh_packet: self.is_fresh_packet,
            is_bos: self.is_bos,
            is_boe: self.is_boe,
            absolute_granule_position: self.absolute_granule_position,
            stream_serial_number: self.stream_serial_number,
            page_sequence_number: self.page_sequence_number,
            page_checksum: self.page_checksum,
            page_segments: self.page_segments,
            segment_table,
            parsed_segment_table,
            page_size: self.page_size,
        }
    }
}

/// `value` is what `callback` returned for the packet at `index` of a page.
pub open spec fn mapped_by<T, F: Fn(&[u8], usize) -> T>(
    callback: F,
    page: OggPageView,
    index: int,
    value: T,
) -> bool {
    exists|bytes: &[u8]|
        bytes@ == packet_bytes(page, index) && #[trigger] callback.ensures(
            (bytes, index as usize),
            value,
        )
}

impl OggPage {
    /// Calls `callback` on each packet of the page with the bytes of the
    /// packet and its index, in order, and collects what it returns.
    pub fn map_segments<T, F>(&self, callback: F) -> (results: Vec<T>) where
        F: Fn(&[u8], usize) -> T,

        requires
            self.wf(),
            forall|bytes: &[u8], i: usize|
                i < self@.parsed_segment_table.len() && bytes@ == packet_bytes(self@, i as int)
                    ==> #[trigger] callback.requires((bytes, i)),
        ensures
            results@.len() == self@.parsed_segment_table.len(),
            forall|i: int|
                0 <= i < results@.len() ==> #[trigger] mapped_by(callback, self@, i, results@[i]),
    {
        let parsed_segment_length = self.parsed_segment_table.len();
        let mut results: Vec<T> = Vec::with_capacity(parsed_segment_length);
        let mut i: usize = 0;
        while i < parsed_segment_length
            invariant
                self.wf(),
                i <= parsed_segment_length,
                parsed_segment_length == self@.parsed_segment_table.len(),
                results@.len() == i,
                forall|bytes: &[u8], k: usize|
                    k < self@.parsed_segment_table.len() && bytes@ == packet_bytes(
                        self@,
                        k as int,
                    ) ==> #[trigger] callback.requires((bytes, k)),
                forall|k: int|
                    0 <= k < i ==> #[trigger] mapped_by(callback, self@, k, results@[k]),
            decreases parsed_segment_length - i,
        {
            match self.get_page_segment(i) {
                Ok(segment) => {
                    let ghost before = results@;
                    let bytes = segment.as_slice();
                    let value = callback(bytes, i);
                    proof {
                        assert(bytes@ == packet_bytes(self@, i as int));
                        assert(callback.ensures((bytes, (i as int) as usize), value));
                        assert(mapped_by(callback, self@, i as int, value));
                    }
                    results.push(value);
                    proof {
                        assert forall|k: int| 0 <= k < i + 1 implies #[trigger] mapped_by(
                            callback,
                            self@,
                            k,
                            results@[k],
                        ) by {
                            if k < i {
                                assert(results@[k] == before[k]);
                                assert(mapped_by(callback, self@, k, before[k]));
                            }
                        }
                    }
                },
                Err(_) => {
                    proof {
                        assert(false);
                    }
                },
            }
            i += 1;
        }
        results
    }
}

/// A packet of a well-formed page has the length that the page lists for
/// it, which is above zero and at most the size of the largest body.
pub proof fn lemma_packet_len(page: &OggPage, index: int)
    requires
        page.wf(),
        0 <= index < page@.parsed_segment_table.len(),
    ensures
        packet_bytes(page@, index).len() == page@.parsed_segment_table[index],
        0 < packet_bytes(page@, index).len() <= 255 * 255,
{
    page.lemma_packets_in_body();
    let lengths = page@.parsed_segment_table;
    lemma_offsets(lengths, index, index + 1);
    assert(lengths.subrange(index, index + 1) =~= seq![lengths[index]]);
    lemma_total_one(lengths[index]);
}

} // verus!
