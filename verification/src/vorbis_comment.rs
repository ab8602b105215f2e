//! The comment header of a Vorbis stream: reading it from a packet and
//! writing it as one.

use crate::bit_stream::{bits_value, lemma_bits_value_u32, BitStreamReader};
use crate::byte_order::{le_bytes_u32, le_u32, lemma_le_u32};
use crate::ogg_page::{append_range, lemma_packet_len};
use crate::ogg_vorbis_page::{
    bytes_are_header, is_header_of, OggVorbisPage, VorbisFormatError, VorbisHeaderType,
};
use crate::text::{
    find_separator, has_separator, key_of, lemma_encode_injective, lemma_split_valid,
    lemma_upper_valid, string_from_utf8, to_upper, value_of, SEPARATOR,
};
use vstd::prelude::*;
use vstd::utf8::{encode_utf8, valid_utf8};

verus! {

/// The comment header of a Vorbis stream: the vendor, and for each field
/// name the values given for it, names and values in the order in which
/// they first came.
#[derive(Debug)]
pub struct IVorbisCommentHeader {
    pub vendor: String,
    pub comments: Vec<(String, Vec<String>)>,
}

/// A field name with its values, as UTF-8 bytes.
pub type Entry = (Seq<u8>, Seq<Seq<u8>>);

/// A comment header as a mathematical value: every text as its UTF-8
/// bytes.
pub struct CommentHeaderView {
    pub vendor: Seq<u8>,
    pub comments: Seq<Entry>,
}

/// The UTF-8 bytes of each of a list of texts.
pub open spec fn values_view(values: Seq<String>) -> Seq<Seq<u8>> {
    Seq::new(values.len(), |i: int| encode_utf8(values[i]@))
}

/// The UTF-8 bytes of each field name and of its values.
pub open spec fn entries_view(entries: Seq<(String, Vec<String>)>) -> Seq<Entry> {
    Seq::new(entries.len(), |i: int| (encode_utf8(entries[i].0@), values_view(entries[i].1@)))
}

impl View for IVorbisCommentHeader {
    type V = CommentHeaderView;

    open spec fn view(&self) -> CommentHeaderView {
        CommentHeaderView {
            vendor: encode_utf8(self.vendor@),
            comments: entries_view(self.comments@),
        }
    }
}

/// No two entries have the same field name.
pub open spec fn distinct_keys(entries: Seq<Entry>) -> bool {
    forall|i: int, j: int|
        0 <= i < j < entries.len() ==> (#[trigger] entries[i]).0 != (#[trigger] entries[j]).0
}

/// The little-endian number in the four bytes from `at` on.
pub open spec fn u32_at(packet: Seq<u8>, at: int) -> int {
    le_u32(packet.subrange(at, at + 4)) as int
}

/// Where the line `index` of a list of lines starts that begins at
/// `first`: each line is four bytes that hold its length, then its text.
pub open spec fn line_start(packet: Seq<u8>, first: int, index: nat) -> int
    decreases index,
{
    if index == 0 {
        first
    } else {
        let before = line_start(packet, first, (index - 1) as nat);
        before + 4 + u32_at(packet, before)
    }
}

/// The line `index` lies inside the packet.
pub open spec fn line_fits(packet: Seq<u8>, first: int, index: nat) -> bool {
    &&& line_start(packet, first, index) + 4 <= packet.len()
    &&& line_start(packet, first, index + 1) <= packet.len()
}

/// The text of the line `index`.
pub open spec fn line(packet: Seq<u8>, first: int, index: nat) -> Seq<u8> {
    packet.subrange(line_start(packet, first, index) + 4, line_start(packet, first, index + 1))
}

/// The texts of the first `count` lines.
pub open spec fn lines_of(packet: Seq<u8>, first: int, count: nat) -> Seq<Seq<u8>> {
    Seq::new(count, |i: int| line(packet, first, i as nat))
}

/// The first entry with the field name `key` stands at `at`.
pub open spec fn holds_key_at(entries: Seq<Entry>, key: Seq<u8>, at: int) -> bool {
    &&& 0 <= at < entries.len()
    &&& entries[at].0 == key
    &&& forall|j: int| 0 <= j < at ==> (#[trigger] entries[j]).0 != key
}

/// The entries with one more value for `key`: it joins the values of the
/// entry with that name, or makes a new last entry.
pub open spec fn add_comment(entries: Seq<Entry>, key: Seq<u8>, value: Seq<u8>) -> Seq<Entry> {
    if exists|at: int| holds_key_at(entries, key, at) {
        let at = choose|at: int| holds_key_at(entries, key, at);
        entries.update(at, (key, entries[at].1.push(value)))
    } else {
        entries.push((key, seq![value]))
    }
}

/// The entries that a list of lines makes: each line with a "=" gives a
/// value to the field named before it; a line without one is dropped.
pub open spec fn grouped(lines: Seq<Seq<u8>>) -> Seq<Entry>
    decreases lines.len(),
{
    if lines.len() == 0 {
        Seq::empty()
    } else {
        let before = grouped(lines.drop_last());
        if has_separator(lines.last()) {
            add_comment(before, key_of(lines.last()), value_of(lines.last()))
        } else {
            before
        }
    }
}

/// The length of the vendor text of a comment packet.
pub open spec fn vendor_length(packet: Seq<u8>) -> int {
    u32_at(packet, 7)
}

/// The number of lines that a comment packet announces.
pub open spec fn comment_count(packet: Seq<u8>) -> nat {
    u32_at(packet, 11 + vendor_length(packet)) as nat
}

/// Where the lines of a comment packet start.
pub open spec fn first_line(packet: Seq<u8>) -> int {
    15 + vendor_length(packet)
}

/// Where the lines of a comment packet end.
pub open spec fn lines_end(packet: Seq<u8>) -> int {
    line_start(packet, first_line(packet), comment_count(packet))
}

/// The packet is a whole comment packet that Vorbis accepts: the vendor
/// and every line lie inside it and are valid UTF-8, and the bit that
/// follows the last line, the framing bit, is set.
pub open spec fn is_comments(packet: Seq<u8>) -> bool {
    &&& is_header_of(packet, VorbisHeaderType::Comment)
    &&& 11 <= packet.len()
    &&& 15 + vendor_length(packet) <= packet.len()
    &&& valid_utf8(packet.subrange(11, 11 + vendor_length(packet)))
    &&& forall|i: nat|
        i < comment_count(packet) ==> #[trigger] line_fits(packet, first_line(packet), i)
            && valid_utf8(line(packet, first_line(packet), i))
    &&& lines_end(packet) < packet.len()
    &&& bits_value(packet, (8 * lines_end(packet)) as nat, 1) == 1
}

/// The comment header that a comment packet holds.
pub open spec fn comments_of(packet: Seq<u8>) -> CommentHeaderView {
    CommentHeaderView {
        vendor: packet.subrange(11, 11 + vendor_length(packet)),
        comments: grouped(lines_of(packet, first_line(packet), comment_count(packet))),
    }
}

/// The first entry with a field name is the only first one.
pub proof fn lemma_key_unique(entries: Seq<Entry>, key: Seq<u8>, at: int)
    requires
        holds_key_at(entries, key, at),
    ensures
        (choose|other: int| holds_key_at(entries, key, other)) == at,
{
    let other = choose|other: int| holds_key_at(entries, key, other);
    assert(holds_key_at(entries, key, other));
    if other < at {
        assert(entries[other].0 != key);
    }
    if at < other {
        assert(entries[at].0 != key);
    }
}

/// One more value keeps field names apart.
pub proof fn lemma_add_comment_distinct(entries: Seq<Entry>, key: Seq<u8>, value: Seq<u8>)
    requires
        distinct_keys(entries),
    ensures
        distinct_keys(add_comment(entries, key, value)),
{
    let after = add_comment(entries, key, value);
    if exists|at: int| holds_key_at(entries, key, at) {
        let at = choose|at: int| holds_key_at(entries, key, at);
        assert forall|i: int, j: int| 0 <= i < j < after.len() implies (#[trigger] after[i]).0 != (
        #[trigger] after[j]).0 by {
            assert(after[i].0 == entries[i].0);
            assert(after[j].0 == entries[j].0);
        }
    } else {
        assert forall|i: int, j: int| 0 <= i < j < after.len() implies (#[trigger] after[i]).0 != (
        #[trigger] after[j]).0 by {
            if j == entries.len() {
                assert(after[i].0 == entries[i].0);
                if entries[i].0 == key {
                    lemma_first_key(entries, key, i);
                }
            } else {
                assert(after[i].0 == entries[i].0);
                assert(after[j].0 == entries[j].0);
            }
        }
    }
}

/// Where any entry has a field name, a first entry has it.
pub proof fn lemma_first_key(entries: Seq<Entry>, key: Seq<u8>, at: int)
    requires
        0 <= at < entries.len(),
        entries[at].0 == key,
    ensures
        exists|first: int| holds_key_at(entries, key, first),
    decreases at,
{
    if exists|j: int| 0 <= j < at && (#[trigger] entries[j]).0 == key {
        let j = choose|j: int| 0 <= j < at && (#[trigger] entries[j]).0 == key;
        lemma_first_key(entries, key, j);
    } else {
        assert(holds_key_at(entries, key, at));
    }
}

/// The entries of any list of lines have field names that differ.
pub proof fn lemma_grouped_distinct(lines: Seq<Seq<u8>>)
    ensures
        distinct_keys(grouped(lines)),
    decreases lines.len(),
{
    if lines.len() > 0 {
        lemma_grouped_distinct(lines.drop_last());
        if has_separator(lines.last()) {
            lemma_add_comment_distinct(
                grouped(lines.drop_last()),
                key_of(lines.last()),
                value_of(lines.last()),
            );
        }
    }
}

proof fn lemma_values_view_push(values: Seq<String>, value: String)
    ensures
        values_view(values.push(value)) == values_view(values).push(encode_utf8(value@)),
{
    assert(values_view(values.push(value)) =~= values_view(values).push(encode_utf8(value@)));
}

proof fn lemma_entries_view_push(entries: Seq<(String, Vec<String>)>, entry: (String, Vec<String>))
    ensures
        entries_view(entries.push(entry)) == entries_view(entries).push(
            (encode_utf8(entry.0@), values_view(entry.1@)),
        ),
{
    assert(entries_view(entries.push(entry)) =~= entries_view(entries).push(
        (encode_utf8(entry.0@), values_view(entry.1@)),
    ));
}

proof fn lemma_entries_view_update(
    entries: Seq<(String, Vec<String>)>,
    at: int,
    entry: (String, Vec<String>),
)
    requires
        0 <= at < entries.len(),
    ensures
        entries_view(entries.update(at, entry)) == entries_view(entries).update(
            at,
            (encode_utf8(entry.0@), values_view(entry.1@)),
        ),
{
    assert(entries_view(entries.update(at, entry)) =~= entries_view(entries).update(
        at,
        (encode_utf8(entry.0@), values_view(entry.1@)),
    ));
}

/// Adds a value for a field name: to the entry with that name, or as a
/// new last entry.
fn push_comment(comments: &mut Vec<(String, Vec<String>)>, key: String, value: String)
    ensures
        entries_view(final(comments)@) == add_comment(
            entries_view(old(comments)@),
            encode_utf8(key@),
            encode_utf8(value@),
        ),
{
    let ghost before = entries_view(comments@);
    let ghost key_bytes = encode_utf8(key@);
    let ghost value_bytes = encode_utf8(value@);
    let mut i: usize = 0;
    while i < comments.len()
        invariant
            i <= comments@.len(),
            comments@ == old(comments)@,
            before == entries_view(comments@),
            key_bytes == encode_utf8(key@),
            forall|j: int| 0 <= j < i ==> (#[trigger] before[j]).0 != key_bytes,
        decreases comments@.len() - i,
    {
        if comments[i].0 == key {
            proof {
                assert(before[i as int].0 == key_bytes);
                assert(holds_key_at(before, key_bytes, i as int));
                lemma_key_unique(before, key_bytes, i as int);
            }
            let (name, mut values) = comments.remove(i);
            let ghost old_values = values@;
            values.push(value);
            proof {
                lemma_values_view_push(old_values, value);
            }
            let ghost entry = (name, values);
            comments.insert(i, (name, values));
            proof {
                assert(comments@ =~= old(comments)@.update(i as int, entry));
                lemma_entries_view_update(old(comments)@, i as int, entry);
            }
            return ;
        }
        proof {
            if before[i as int].0 == key_bytes {
                lemma_encode_injective(comments@[i as int].0@, key@);
            }
        }
        i += 1;
    }
    proof {
        if exists|at: int| holds_key_at(before, key_bytes, at) {
            let at = choose|at: int| holds_key_at(before, key_bytes, at);
            assert(before[at].0 != key_bytes);
        }
    }
    let mut values: Vec<String> = Vec::new();
    values.push(value);
    proof {
        lemma_values_view_push(Seq::<String>::empty(), value);
        assert(values_view(Seq::<String>::empty()).push(value_bytes) =~= seq![value_bytes]);
        lemma_entries_view_push(old(comments)@, (key, values));
    }
    comments.push((key, values));
}

/// A copy of `source[from..to)`.
fn copy_range(source: &[u8], from: usize, to: usize) -> (copy: Vec<u8>)
    requires
        from <= to <= source@.len(),
    ensures
        copy@ == source@.subrange(from as int, to as int),
{
    vstd::slice::slice_to_vec(vstd::slice::slice_subrange(source, from, to))
}

/// The error for a comment packet that ends before its texts do.
fn incomplete() -> (error: VorbisFormatError)
    ensures
        error.0@ == "Incomplete comment packet"@,
{
    VorbisFormatError("Incomplete comment packet".to_string())
}

/// The error for a text of a comment packet that is not valid UTF-8.
fn invalid_text() -> (error: VorbisFormatError)
    ensures
        error.0@ == "Invalid UTF-8 sequence"@,
{
    VorbisFormatError("Invalid UTF-8 sequence".to_string())
}

impl OggVorbisPage {
    /// Reads the comment header from the packet at `segment_index`. Fails
    /// when the page has no such packet, when the packet is not a whole
    /// comment packet, when a text in it is not valid UTF-8, and when the
    /// framing bit is not set.
    pub fn get_comments(&self, segment_index: usize) -> (result: Result<
        IVorbisCommentHeader,
        VorbisFormatError,
    >)
        requires
            self.wf(),
        ensures
            result is Ok <==> segment_index < self.packet_count() && is_comments(
                self.packet(segment_index as int),
            ),
            result is Ok ==> result->Ok_0@ == comments_of(self.packet(segment_index as int)),
            result is Ok ==> distinct_keys(result->Ok_0@.comments),
    {
        let array = match self.ogg_page.get_page_segment(segment_index) {
            Ok(array) => array,
            Err(e) => {
                return Err(VorbisFormatError::from_ogg(&e));
            },
        };
        proof {
            lemma_packet_len(&self.ogg_page, segment_index as int);
        }
        if !bytes_are_header(array.as_slice()) {
            return Err(VorbisFormatError("Invalid magic signature".to_string()));
        }
        if array[0] != VorbisHeaderType::Comment.code() {
            return Err(VorbisFormatError("The packet is not a comment packet".to_string()));
        }
        let ghost packet = array@;
        let mut reader = BitStreamReader::new(array, 7 * 8);
        if !reader.has_bits(32) {
            return Err(incomplete());
        }
        proof {
            lemma_bits_value_u32(packet, 7);
            lemma_le_u32(0, packet.subrange(7, 11));
        }
        let vendor_length = reader.read_uint32() as usize;
        let vendor_start = reader.cursor / 8;
        if vendor_length > reader.data.len() - vendor_start {
            return Err(incomplete());
        }
        let vendor_bytes = copy_range(
            reader.data.as_slice(),
            vendor_start,
            vendor_start + vendor_length,
        );
        let vendor = match string_from_utf8(vendor_bytes) {
            Some(vendor) => vendor,
            None => {
                return Err(invalid_text());
            },
        };
        reader.cursor += vendor_length * 8;
        if !reader.has_bits(32) {
            return Err(incomplete());
        }
        proof {
            lemma_bits_value_u32(packet, (11 + vendor_length) as nat);
            lemma_le_u32(0, packet.subrange(11 + vendor_length, 15 + vendor_length));
        }
        let user_comment_list_length = reader.read_uint32();
        let ghost first = first_line(packet);

        let mut comments: Vec<(String, Vec<String>)> = Vec::new();
        let mut i: u32 = 0;
        proof {
            assert(lines_of(packet, first, 0) =~= Seq::<Seq<u8>>::empty());
            assert(entries_view(comments@) =~= Seq::<Entry>::empty());
        }
        while i < user_comment_list_length
            invariant
                reader.data@ == packet,
                packet.len() <= 255 * 255,
                segment_index < self.packet_count(),
                packet == self.packet(segment_index as int),
                i <= user_comment_list_length == comment_count(packet),
                first == first_line(packet),
                reader.cursor == 8 * line_start(packet, first, i as nat),
                first <= line_start(packet, first, i as nat) <= packet.len(),
                forall|j: nat|
                    j < i ==> #[trigger] line_fits(packet, first, j) && valid_utf8(
                        line(packet, first, j),
                    ),
                entries_view(comments@) == grouped(lines_of(packet, first, i as nat)),
            decreases user_comment_list_length - i,
        {
            let ghost start = line_start(packet, first, i as nat);
            if !reader.has_bits(32) {
                proof {
                    assert(!line_fits(packet, first, i as nat));
                }
                return Err(incomplete());
            }
            proof {
                lemma_bits_value_u32(packet, start as nat);
                lemma_le_u32(0, packet.subrange(start, start + 4));
            }
            let comment_length = reader.read_uint32() as usize;
            let comment_start = reader.cursor / 8;
            if comment_length > reader.data.len() - comment_start {
                proof {
                    assert(!line_fits(packet, first, i as nat));
                }
                return Err(incomplete());
            }
            let ghost text_bytes = line(packet, first, i as nat);
            let comment_bytes = copy_range(
                reader.data.as_slice(),
                comment_start,
                comment_start + comment_length,
            );
            let comment = match string_from_utf8(comment_bytes) {
                Some(comment) => comment,
                None => {
                    proof {
                        assert(line_fits(packet, first, i as nat));
                        assert(!valid_utf8(line(packet, first, i as nat)));
                    }
                    return Err(invalid_text());
                },
            };
            reader.cursor += comment_length * 8;
            let bytes = comment.as_str().as_bytes();
            match find_separator(bytes) {
                Some(at) => {
                    proof {
                        lemma_split_valid(text_bytes, at as int);
                        lemma_upper_valid(text_bytes.subrange(0, at as int));
                    }
                    let name = to_upper(vstd::slice::slice_subrange(bytes, 0, at));
                    let rest = copy_range(bytes, at + 1, bytes.len());
                    match (string_from_utf8(name), string_from_utf8(rest)) {
                        (Some(field_name), Some(field_value)) => {
                            push_comment(&mut comments, field_name, field_value);
                        },
                        _ => {
                            proof {
                                assert(false);
                            }
                        },
                    }
                },
                None => {},
            }
            proof {
                assert(line_start(packet, first, (i + 1) as nat) == start + 4 + comment_length);
                assert(line_fits(packet, first, i as nat));
                assert(valid_utf8(line(packet, first, i as nat)));
                let more = lines_of(packet, first, (i + 1) as nat);
                assert(more.drop_last() =~= lines_of(packet, first, i as nat));
                assert(more.last() == text_bytes);
            }
            i += 1;
        }
        if !reader.has_bits(1) {
            return Err(incomplete());
        }
        let framing_bit = reader.read_bool();
        if !framing_bit {
            return Err(VorbisFormatError("Framing bit must be nonzero".to_string()));
        }
        proof {
            lemma_grouped_distinct(lines_of(packet, first, comment_count(packet)));
        }
        Ok(IVorbisCommentHeader { vendor, comments })
    }
}

/// A length as it is written into four bytes: its low 32 bits.
pub open spec fn short(length: nat) -> u32 {
    (length % 0x1_0000_0000) as u32
}

/// A text behind the four bytes that hold its length.
pub open spec fn with_length(text: Seq<u8>) -> Seq<u8> {
    le_bytes_u32(short(text.len())) + text
}

/// The lines that an entry is written as: one for each value, the field
/// name, a "=" and the value.
pub open spec fn entry_lines(entry: Entry) -> Seq<Seq<u8>> {
    Seq::new(entry.1.len(), |j: int| entry.0 + seq![SEPARATOR] + entry.1[j])
}

/// The lines that a list of entries is written as, entry by entry.
pub open spec fn all_lines(entries: Seq<Entry>) -> Seq<Seq<u8>>
    decreases entries.len(),
{
    if entries.len() == 0 {
        Seq::empty()
    } else {
        all_lines(entries.drop_last()) + entry_lines(entries.last())
    }
}

/// The bytes of a list of lines, each behind its length.
pub open spec fn written_lines(lines: Seq<Seq<u8>>) -> Seq<u8>
    decreases lines.len(),
{
    if lines.len() == 0 {
        Seq::empty()
    } else {
        written_lines(lines.drop_last()) + with_length(lines.last())
    }
}

/// What stands before the lines of a comment packet: the byte 3, the
/// word "vorbis", the vendor behind its length, and the number of lines.
pub open spec fn comment_head(header: CommentHeaderView) -> Seq<u8> {
    seq![3u8, 0x76u8, 0x6fu8, 0x72u8, 0x62u8, 0x69u8, 0x73u8] + with_length(header.vendor)
        + le_bytes_u32(short(all_lines(header.comments).len()))
}

/// The comment packet that is written for a comment header: the head,
/// the lines, and a last byte with the framing bit.
pub open spec fn comment_packet(header: CommentHeaderView) -> Seq<u8> {
    comment_head(header) + written_lines(all_lines(header.comments)) + seq![1u8]
}

/// The low 32 bits of a length.
fn short_of(length: usize) -> (low: u32)
    ensures
        low == short(length as nat),
{
    ((length as u64) % 0x1_0000_0000u64) as u32
}

/// Appends the four little-endian bytes of `value`.
fn push_u32_le(target: &mut Vec<u8>, value: u32)
    ensures
        final(target)@ == old(target)@ + le_bytes_u32(value),
{
    target.push((value % 0x100) as u8);
    target.push((value / 0x100 % 0x100) as u8);
    target.push((value / 0x1_0000 % 0x100) as u8);
    target.push((value / 0x100_0000) as u8);
    proof {
        assert(target@ =~= old(target)@ + le_bytes_u32(value));
    }
}

/// One more entry adds its lines behind those of the others.
pub proof fn lemma_all_lines_push(entries: Seq<Entry>, entry: Entry)
    ensures
        all_lines(entries.push(entry)) == all_lines(entries) + entry_lines(entry),
{
    assert(entries.push(entry).drop_last() =~= entries);
}

/// One more line adds itself, behind its length, to the bytes of the others.
pub proof fn lemma_written_lines_push(lines: Seq<Seq<u8>>, text: Seq<u8>)
    ensures
        written_lines(lines.push(text)) == written_lines(lines) + with_length(text),
{
    assert(lines.push(text).drop_last() =~= lines);
}

/// Counts the lines that the entries are written as, in 32 bits.
fn count_lines(comments: &Vec<(String, Vec<String>)>) -> (count: u32)
    ensures
        count == short(all_lines(entries_view(comments@)).len()),
{
    let ghost entries = entries_view(comments@);
    let mut count: u32 = 0;
    let mut i: usize = 0;
    proof {
        assert(entries.subrange(0, 0) =~= Seq::<Entry>::empty());
    }
    while i < comments.len()
        invariant
            i <= comments@.len(),
            entries == entries_view(comments@),
            count == short(all_lines(entries.subrange(0, i as int)).len()),
        decreases comments@.len() - i,
    {
        proof {
            assert(entries.subrange(0, i + 1) =~= entries.subrange(0, i as int).push(
                entries[i as int],
            ));
            lemma_all_lines_push(entries.subrange(0, i as int), entries[i as int]);
        }
        count = count.wrapping_add(short_of(comments[i].1.len()));
        i += 1;
    }
    proof {
        assert(entries.subrange(0, i as int) =~= entries);
    }
    count
}

impl OggVorbisPage {
    /// Writes a comment header as the bytes of a comment packet. Lengths
    /// and the number of lines are written with their low 32 bits; the
    /// number of lines counts every value of every field.
    pub fn build_comments(header: IVorbisCommentHeader) -> (packet: Vec<u8>)
        ensures
            packet@ == comment_packet(header@),
    {
        let ghost entries = entries_view(header.comments@);
        let mut result: Vec<u8> = Vec::new();
        result.push(VorbisHeaderType::Comment.code());
        result.push(0x76);
        result.push(0x6f);
        result.push(0x72);
        result.push(0x62);
        result.push(0x69);
        result.push(0x73);

        let vendor_bytes = header.vendor.as_str().as_bytes();
        push_u32_le(&mut result, short_of(vendor_bytes.len()));
        append_range(&mut result, vendor_bytes, 0, vendor_bytes.len());
        push_u32_le(&mut result, count_lines(&header.comments));
        proof {
            assert(vendor_bytes@.subrange(0, vendor_bytes@.len() as int) =~= vendor_bytes@);
            assert(result@ =~= comment_head(header@));
            assert(entries.subrange(0, 0) =~= Seq::<Entry>::empty());
            assert(result@ =~= comment_head(header@) + written_lines(
                all_lines(entries.subrange(0, 0)),
            ));
        }
        let mut i: usize = 0;
        while i < header.comments.len()
            invariant
                i <= header.comments@.len(),
                entries == entries_view(header.comments@),
                result@ == comment_head(header@) + written_lines(
                    all_lines(entries.subrange(0, i as int)),
                ),
            decreases header.comments@.len() - i,
        {
            let key_bytes = header.comments[i].0.as_str().as_bytes();
            let values = &header.comments[i].1;
            let ghost done = all_lines(entries.subrange(0, i as int));
            let ghost lines = entry_lines(entries[i as int]);
            proof {
                assert(done + lines.subrange(0, 0) =~= done);
            }
            let mut j: usize = 0;
            while j < values.len()
                invariant
                    j <= values@.len(),
                    i < header.comments@.len(),
                    entries == entries_view(header.comments@),
                    values@ == header.comments@[i as int].1@,
                    key_bytes@ == entries[i as int].0,
                    lines == entry_lines(entries[i as int]),
                    result@ == comment_head(header@) + written_lines(
                        done + lines.subrange(0, j as int),
                    ),
                decreases values@.len() - j,
            {
                let value_bytes = values[j].as_str().as_bytes();
                let mut comment_bytes: Vec<u8> = Vec::new();
                append_range(&mut comment_bytes, key_bytes, 0, key_bytes.len());
                comment_bytes.push(0x3d);
                append_range(&mut comment_bytes, value_bytes, 0, value_bytes.len());
                proof {
                    assert(key_bytes@.subrange(0, key_bytes@.len() as int) =~= key_bytes@);
                    assert(value_bytes@.subrange(0, value_bytes@.len() as int) =~= value_bytes@);
                    assert(comment_bytes@ =~= lines[j as int]);
                    assert(done + lines.subrange(0, j + 1) =~= (done + lines.subrange(
                        0,
                        j as int,
                    )).push(lines[j as int]));
                    lemma_written_lines_push(done + lines.subrange(0, j as int), lines[j as int]);
                }
                push_u32_le(&mut result, short_of(comment_bytes.len()));
                append_range(&mut result, comment_bytes.as_slice(), 0, comment_bytes.len());
                proof {
                    assert(comment_bytes@.subrange(0, comment_bytes@.len() as int)
                        =~= comment_bytes@);
                    assert(result@ =~= comment_head(header@) + written_lines(
                        done + lines.subrange(0, j + 1),
                    ));
                }
                j += 1;
            }
            proof {
                assert(lines.subrange(0, j as int) =~= lines);
                assert(entries.subrange(0, i + 1) =~= entries.subrange(0, i as int).push(
                    entries[i as int],
                ));
                lemma_all_lines_push(entries.subrange(0, i as int), entries[i as int]);
            }
            i += 1;
        }
        result.push(1);
        proof {
            assert(entries.subrange(0, i as int) =~= entries);
            assert(result@ =~= comment_packet(header@));
        }
        result
    }
}

} // verus!
