//! A comment header that is written as a packet and read again comes back
//! with its vendor and its values, the field names in upper case.

use crate::bit_stream::{bits_value, lemma_bits_value_flag};
use crate::byte_order::{le_bytes_u32, le_u32, lemma_le_u32};
use crate::ogg_vorbis_page::{is_header_of, VorbisHeaderType};
use crate::text::{
    key_of, lemma_join_valid, lemma_separator_unique, splits_at, upper, value_of, SEPARATOR,
};
use crate::vorbis_comment::{
    all_lines, comment_count, comment_head, comment_packet, comments_of, entry_lines, first_line,
    grouped, holds_key_at, is_comments, lemma_key_unique, line, line_fits, line_start, lines_end,
    lines_of, short, u32_at, vendor_length, with_length, written_lines, CommentHeaderView, Entry,
    IVorbisCommentHeader,
};
use vstd::prelude::*;
use vstd::utf8::{encode_utf8_valid_utf8, valid_utf8};

verus! {

/// The entries with their field names in upper case.
pub open spec fn upper_keys(entries: Seq<Entry>) -> Seq<Entry> {
    Seq::new(entries.len(), |i: int| (upper(entries[i].0), entries[i].1))
}

/// An entry comes back when it is written and read: its name is valid
/// UTF-8 without a "=", it has a value, its values are valid UTF-8, and
/// the length of each of its lines fits in 32 bits.
pub open spec fn writable_entry(entry: Entry) -> bool {
    &&& valid_utf8(entry.0)
    &&& forall|k: int| 0 <= k < entry.0.len() ==> entry.0[k] != SEPARATOR
    &&& entry.1.len() > 0
    &&& forall|j: int|
        0 <= j < entry.1.len() ==> valid_utf8(#[trigger] entry.1[j]) && entry.0.len() + 1
            + entry.1[j].len() < 0x1_0000_0000
}

/// A comment header comes back when it is written and read: the vendor is
/// valid UTF-8, the length of the vendor and the number of lines fit in 32
/// bits, every entry comes back, and the field names still differ when
/// they are in upper case.
pub open spec fn writable(header: CommentHeaderView) -> bool {
    &&& valid_utf8(header.vendor)
    &&& header.vendor.len() < 0x1_0000_0000
    &&& all_lines(header.comments).len() < 0x1_0000_0000
    &&& forall|i: int|
        0 <= i < header.comments.len() ==> writable_entry(#[trigger] header.comments[i])
    &&& forall|i: int, j: int|
        0 <= i < j < header.comments.len() ==> upper((#[trigger] header.comments[i]).0) != upper(
            (#[trigger] header.comments[j]).0,
        )
}

/// A line can be written and read: it is valid UTF-8 and its length fits
/// in 32 bits.
pub open spec fn writable_line(text: Seq<u8>) -> bool {
    valid_utf8(text) && text.len() < 0x1_0000_0000
}

/// The bytes of two lists of lines, one after the other, are the bytes of
/// the one list that they make.
pub proof fn lemma_written_lines_concat(first: Seq<Seq<u8>>, second: Seq<Seq<u8>>)
    ensures
        written_lines(first + second) == written_lines(first) + written_lines(second),
    decreases second.len(),
{
    if second.len() == 0 {
        assert(first + second =~= first);
        assert(written_lines(first) + written_lines(second) =~= written_lines(first));
    } else {
        lemma_written_lines_concat(first, second.drop_last());
        assert((first + second).drop_last() =~= first + second.drop_last());
        assert(written_lines(first + second) =~= written_lines(first) + written_lines(second));
    }
}

/// The four bytes written for a length that fits hold that length.
proof fn lemma_with_length(text: Seq<u8>)
    requires
        text.len() < 0x1_0000_0000,
    ensures
        with_length(text).len() == 4 + text.len(),
        le_u32(with_length(text).subrange(0, 4)) == text.len(),
        with_length(text).subrange(4, 4 + text.len() as int) == text,
{
    lemma_le_u32(short(text.len()), text);
    assert(with_length(text).subrange(0, 4) =~= le_bytes_u32(short(text.len())));
    assert(with_length(text).subrange(4, 4 + text.len() as int) =~= text);
}

/// The bytes of a list of lines are the bytes of the lines before one of
/// them, that line behind its length, and the bytes of the lines after it.
proof fn lemma_written_around(lines: Seq<Seq<u8>>, index: int)
    requires
        0 <= index < lines.len(),
    ensures
        written_lines(lines) == written_lines(lines.subrange(0, index)) + with_length(
            lines[index],
        ) + written_lines(lines.subrange(index + 1, lines.len() as int)),
        written_lines(lines.subrange(0, index + 1)) == written_lines(lines.subrange(0, index))
            + with_length(lines[index]),
{
    let done = lines.subrange(0, index);
    let more = lines.subrange(0, index + 1);
    let rest = lines.subrange(index + 1, lines.len() as int);
    assert(more.drop_last() =~= done);
    assert(more.last() == lines[index]);
    assert(lines =~= more + rest);
    lemma_written_lines_concat(more, rest);
}

/// Where a line stands in a packet that holds written lines from `first`
/// on: behind the lines before it, its length first, inside the packet.
proof fn lemma_line_in_packet(packet: Seq<u8>, first: int, lines: Seq<Seq<u8>>, index: int)
    requires
        0 <= first,
        first + written_lines(lines).len() <= packet.len(),
        packet.subrange(first, first + written_lines(lines).len()) == written_lines(lines),
        0 <= index < lines.len(),
        lines[index].len() < 0x1_0000_0000,
    ensures
        ({
            let start = first + written_lines(lines.subrange(0, index)).len();
            &&& start + 4 + lines[index].len() <= first + written_lines(lines).len()
            &&& u32_at(packet, start) == lines[index].len()
            &&& packet.subrange(start + 4, start + 4 + lines[index].len()) == lines[index]
            &&& first + written_lines(lines.subrange(0, index + 1)).len() == start + 4
                + lines[index].len()
        }),
{
    let all = written_lines(lines);
    let text = lines[index];
    let before = written_lines(lines.subrange(0, index));
    let after = written_lines(lines.subrange(index + 1, lines.len() as int));
    let start = first + before.len();
    let window = packet.subrange(first, first + all.len());
    lemma_written_around(lines, index);
    lemma_with_length(text);
    assert(all.len() == before.len() + 4 + text.len() + after.len());
    assert(packet.subrange(start, start + 4) =~= with_length(text).subrange(0, 4)) by {
        assert forall|k: int| 0 <= k < 4 implies packet.subrange(start, start + 4)[k]
            == with_length(text).subrange(0, 4)[k] by {
            assert(packet[start + k] == window[before.len() + k]);
            assert(all[before.len() + k] == with_length(text)[k]);
        }
    }
    assert(packet.subrange(start + 4, start + 4 + text.len()) =~= text) by {
        assert forall|k: int| 0 <= k < text.len() implies packet.subrange(
            start + 4,
            start + 4 + text.len(),
        )[k] == text[k] by {
            assert(packet[start + 4 + k] == window[before.len() + 4 + k]);
            assert(all[before.len() + 4 + k] == with_length(text)[4 + k]);
            assert(with_length(text).subrange(4, 4 + text.len() as int)[k] == with_length(
                text,
            )[4 + k]);
        }
    }
}

/// In a packet that holds written lines from `first` on, every line starts
/// where the lines before it end, lies inside the packet, and is read as
/// it was written.
proof fn lemma_line_starts(packet: Seq<u8>, first: int, lines: Seq<Seq<u8>>, index: nat)
    requires
        0 <= first,
        first + written_lines(lines).len() <= packet.len(),
        packet.subrange(first, first + written_lines(lines).len()) == written_lines(lines),
        forall|k: int| 0 <= k < lines.len() ==> (#[trigger] lines[k]).len() < 0x1_0000_0000,
        index <= lines.len(),
    ensures
        line_start(packet, first, index) == first + written_lines(
            lines.subrange(0, index as int),
        ).len(),
        line_start(packet, first, index) <= first + written_lines(lines).len(),
        index < lines.len() ==> line_fits(packet, first, index) && line(packet, first, index)
            == lines[index as int],
    decreases index,
{
    if index > 0 {
        let less = (index - 1) as nat;
        lemma_line_starts(packet, first, lines, less);
        lemma_line_in_packet(packet, first, lines, less as int);
        let before = line_start(packet, first, less);
        assert(line_start(packet, first, index) == before + 4 + u32_at(packet, before));
    } else {
        assert(lines.subrange(0, 0) =~= Seq::<Seq<u8>>::empty());
    }
    if index < lines.len() {
        lemma_line_in_packet(packet, first, lines, index as int);
        let start = line_start(packet, first, index);
        let next = (index + 1) as nat;
        assert((next - 1) as nat == index);
        assert(line_start(packet, first, next) == start + 4 + u32_at(packet, start));
    } else {
        assert(lines.subrange(0, index as int) =~= lines);
    }
}

/// The lines of entries that come back can be written and read.
proof fn lemma_all_lines_writable(entries: Seq<Entry>)
    requires
        forall|i: int| 0 <= i < entries.len() ==> writable_entry(#[trigger] entries[i]),
    ensures
        forall|k: int|
            0 <= k < all_lines(entries).len() ==> writable_line(#[trigger] all_lines(entries)[k]),
    decreases entries.len(),
{
    if entries.len() > 0 {
        let before = entries.drop_last();
        let entry = entries.last();
        assert forall|i: int| 0 <= i < before.len() implies writable_entry(
            #[trigger] before[i],
        ) by {
            assert(before[i] == entries[i]);
        }
        lemma_all_lines_writable(before);
        assert(writable_entry(entry));
        assert forall|k: int| 0 <= k < all_lines(entries).len() implies writable_line(
            #[trigger] all_lines(entries)[k],
        ) by {
            if k >= all_lines(before).len() {
                let j = k - all_lines(before).len();
                assert(all_lines(entries)[k] == entry_lines(entry)[j]);
                assert(valid_utf8(entry.1[j]));
                lemma_join_valid(entry.0, entry.1[j]);
            } else {
                assert(all_lines(entries)[k] == all_lines(before)[k]);
            }
        }
    }
}

/// The lines of one entry, read after lines that made the entries `made`
/// with other field names, add that entry with its name in upper case.
proof fn lemma_grouped_entry(before: Seq<Seq<u8>>, made: Seq<Entry>, entry: Entry, count: nat)
    requires
        grouped(before) == made,
        writable_entry(entry),
        forall|i: int| 0 <= i < made.len() ==> (#[trigger] made[i]).0 != upper(entry.0),
        count <= entry.1.len(),
    ensures
        grouped(before + entry_lines(entry).subrange(0, count as int)) == if count == 0 {
            made
        } else {
            made.push((upper(entry.0), entry.1.subrange(0, count as int)))
        },
    decreases count,
{
    let lines = entry_lines(entry);
    if count == 0 {
        assert(before + lines.subrange(0, 0) =~= before);
    } else {
        let less = (count - 1) as nat;
        lemma_grouped_entry(before, made, entry, less);
        let read = before + lines.subrange(0, count as int);
        let text = lines[less as int];
        let value = entry.1[less as int];
        let name = upper(entry.0);
        assert(read.drop_last() =~= before + lines.subrange(0, less as int));
        assert(read.last() == text);
        assert(text == entry.0 + seq![SEPARATOR] + value);
        assert(splits_at(text, entry.0.len() as int));
        lemma_separator_unique(text, entry.0.len() as int);
        assert(text.subrange(0, entry.0.len() as int) =~= entry.0);
        assert(text.subrange(entry.0.len() + 1 as int, text.len() as int) =~= value);
        assert(key_of(text) == name);
        assert(value_of(text) == value);
        let so_far = grouped(read.drop_last());
        if less == 0 {
            assert(so_far == made);
            if exists|at: int| holds_key_at(made, name, at) {
                let at = choose|at: int| holds_key_at(made, name, at);
                assert(made[at].0 != name);
            }
            assert(entry.1.subrange(0, 1) =~= seq![value]);
        } else {
            assert(so_far == made.push((name, entry.1.subrange(0, less as int))));
            assert(holds_key_at(so_far, name, made.len() as int)) by {
                assert forall|j: int| 0 <= j < made.len() implies (#[trigger] so_far[j]).0
                    != name by {
                    assert(so_far[j] == made[j]);
                }
            }
            lemma_key_unique(so_far, name, made.len() as int);
            assert(entry.1.subrange(0, less as int).push(value) =~= entry.1.subrange(
                0,
                count as int,
            ));
            assert(so_far.update(
                made.len() as int,
                (name, entry.1.subrange(0, less as int).push(value)),
            ) =~= made.push((name, entry.1.subrange(0, count as int))));
        }
    }
}

/// The lines written for entries that come back, read again, make the
/// same entries with their field names in upper case.
proof fn lemma_grouped_lines(entries: Seq<Entry>)
    requires
        forall|i: int| 0 <= i < entries.len() ==> writable_entry(#[trigger] entries[i]),
        forall|i: int, j: int|
            0 <= i < j < entries.len() ==> upper((#[trigger] entries[i]).0) != upper(
                (#[trigger] entries[j]).0,
            ),
    ensures
        grouped(all_lines(entries)) == upper_keys(entries),
    decreases entries.len(),
{
    if entries.len() == 0 {
        assert(upper_keys(entries) =~= Seq::<Entry>::empty());
    } else {
        let before = entries.drop_last();
        let entry = entries.last();
        assert forall|i: int| 0 <= i < before.len() implies writable_entry(
            #[trigger] before[i],
        ) by {
            assert(before[i] == entries[i]);
        }
        assert forall|i: int, j: int| 0 <= i < j < before.len() implies upper(
            (#[trigger] before[i]).0,
        ) != upper((#[trigger] before[j]).0) by {
            assert(before[i] == entries[i]);
            assert(before[j] == entries[j]);
        }
        lemma_grouped_lines(before);
        let made = upper_keys(before);
        assert forall|i: int| 0 <= i < made.len() implies (#[trigger] made[i]).0 != upper(
            entry.0,
        ) by {
            assert(made[i].0 == upper(entries[i].0));
            assert(entry == entries[entries.len() - 1]);
        }
        lemma_grouped_entry(all_lines(before), made, entry, entry.1.len());
        assert(entry_lines(entry).subrange(0, entry.1.len() as int) =~= entry_lines(entry));
        assert(entry.1.subrange(0, entry.1.len() as int) =~= entry.1);
        assert(made.push((upper(entry.0), entry.1)) =~= upper_keys(entries));
    }
}

/// The head of a written comment packet is read as it was written, and
/// the lines follow it, with the framing byte behind them.
proof fn lemma_written_head(header: CommentHeaderView)
    requires
        header.vendor.len() < 0x1_0000_0000,
        all_lines(header.comments).len() < 0x1_0000_0000,
    ensures
        ({
            let packet = comment_packet(header);
            let written = written_lines(all_lines(header.comments));
            let first = 15 + header.vendor.len() as int;
            &&& is_header_of(packet, VorbisHeaderType::Comment)
            &&& packet.len() == first + written.len() + 1
            &&& vendor_length(packet) == header.vendor.len()
            &&& packet.subrange(11, 11 + header.vendor.len() as int) == header.vendor
            &&& comment_count(packet) == all_lines(header.comments).len()
            &&& first_line(packet) == first
            &&& packet.subrange(first, first + written.len()) == written
            &&& packet[first + written.len()] == 1u8
        }),
{
    let packet = comment_packet(header);
    let head = comment_head(header);
    let lines = all_lines(header.comments);
    let written = written_lines(lines);
    let size = header.vendor.len() as int;
    lemma_with_length(header.vendor);
    lemma_le_u32(short(lines.len()), header.vendor);
    assert(head.len() == 15 + size);
    assert(packet.len() == 16 + size + written.len());
    assert(packet.subrange(7, 11) =~= with_length(header.vendor).subrange(0, 4));
    assert(vendor_length(packet) == size);
    assert(packet.subrange(11, 11 + size) =~= header.vendor);
    assert(packet.subrange(11 + size, 15 + size) =~= le_bytes_u32(short(lines.len())));
    assert(comment_count(packet) == lines.len());
    assert(packet.subrange(15 + size, 15 + size + written.len()) =~= written);
}

/// The lines of a written comment packet are read as they were written,
/// and the framing bit stands behind them.
proof fn lemma_written_body(header: CommentHeaderView)
    requires
        writable(header),
    ensures
        ({
            let packet = comment_packet(header);
            let lines = all_lines(header.comments);
            let first = first_line(packet);
            &&& forall|i: nat|
                i < lines.len() ==> #[trigger] line_fits(packet, first, i) && valid_utf8(
                    line(packet, first, i),
                )
            &&& lines_of(packet, first, lines.len()) == lines
            &&& line_start(packet, first, lines.len()) == packet.len() - 1
        }),
{
    let packet = comment_packet(header);
    let lines = all_lines(header.comments);
    let written = written_lines(lines);
    let first = first_line(packet);
    lemma_written_head(header);
    lemma_all_lines_writable(header.comments);
    assert forall|k: int| 0 <= k < lines.len() implies (#[trigger] lines[k]).len()
        < 0x1_0000_0000 by {
        assert(writable_line(lines[k]));
    }
    assert forall|i: nat| i < lines.len() implies #[trigger] line_fits(packet, first, i)
        && valid_utf8(line(packet, first, i)) by {
        lemma_line_starts(packet, first, lines, i);
        assert(writable_line(lines[i as int]));
    }
    lemma_line_starts(packet, first, lines, lines.len());
    assert(lines.subrange(0, lines.len() as int) =~= lines);
    assert(lines_of(packet, first, lines.len()) =~= lines) by {
        assert forall|k: int| 0 <= k < lines.len() implies lines_of(
            packet,
            first,
            lines.len(),
        )[k] == lines[k] by {
            lemma_line_starts(packet, first, lines, k as nat);
        }
    }
}

/// A comment header that is written as a packet and read again comes back:
/// the packet is one that the reader accepts, and it holds the vendor and,
/// under the field names in upper case, the values of the header, each in
/// its place. This is stated for the headers that `writable` describes.
pub proof fn lemma_comments_round_trip(header: CommentHeaderView)
    requires
        writable(header),
    ensures
        is_comments(comment_packet(header)),
        comments_of(comment_packet(header)) == (CommentHeaderView {
            vendor: header.vendor,
            comments: upper_keys(header.comments),
        }),
{
    let packet = comment_packet(header);
    let lines = all_lines(header.comments);
    let first = first_line(packet);
    lemma_written_head(header);
    lemma_written_body(header);
    lemma_grouped_lines(header.comments);
    assert(comment_count(packet) == lines.len());
    assert(lines_end(packet) == line_start(packet, first, lines.len()));
    assert(lines_end(packet) == packet.len() - 1);
    assert(packet[lines_end(packet)] == 1u8);
    lemma_bits_value_flag(packet, lines_end(packet) as nat);
    assert(bits_value(packet, (8 * lines_end(packet)) as nat, 1) == 1);
    assert(valid_utf8(packet.subrange(11, 11 + vendor_length(packet))));
    assert forall|i: nat| i < comment_count(packet) implies #[trigger] line_fits(
        packet,
        first_line(packet),
        i,
    ) && valid_utf8(line(packet, first_line(packet), i)) by {}
    assert(is_comments(packet));
    assert(lines_of(packet, first, comment_count(packet)) == lines);
}

/// The texts of a comment header are valid UTF-8, as the texts of the
/// language are.
pub proof fn lemma_texts_valid(header: &IVorbisCommentHeader)
    ensures
        valid_utf8(header@.vendor),
        forall|i: int|
            0 <= i < header@.comments.len() ==> valid_utf8((#[trigger] header@.comments[i]).0),
        forall|i: int, j: int|
            0 <= i < header@.comments.len() && 0 <= j < header@.comments[i].1.len() ==> valid_utf8(
                #[trigger] header@.comments[i].1[j],
            ),
{
    encode_utf8_valid_utf8(header.vendor@);
    assert forall|i: int| 0 <= i < header@.comments.len() implies valid_utf8(
        (#[trigger] header@.comments[i]).0,
    ) by {
        encode_utf8_valid_utf8(header.comments@[i].0@);
    }
    assert forall|i: int, j: int|
        0 <= i < header@.comments.len() && 0 <= j < header@.comments[i].1.len() implies valid_utf8(
        #[trigger] header@.comments[i].1[j],
    ) by {
        encode_utf8_valid_utf8(header.comments@[i].1@[j]@);
    }
}

} // verus!
